//! Byte layouts handed to the Windows shell: window titles, icon images and
//! clipboard bitmaps.

use vstd::prelude::*;

use crate::text::{chars_of, push_utf16, utf16_encode, utf16_of_char};

verus! {

/// The title text with each `…` written as `..`.
pub open spec fn without_ellipsis(s: Seq<char>) -> Seq<char>
    decreases s.len(),
{
    if s.len() == 0 {
        s
    } else if s.last() == '…' {
        without_ellipsis(s.drop_last()) + seq!['.', '.']
    } else {
        without_ellipsis(s.drop_last()).push(s.last())
    }
}

/// Law: in a title each `…` becomes `..` and every other character stays: the
/// rewriting works character by character, so it carries over concatenation.
pub proof fn lemma_without_ellipsis(a: Seq<char>, b: Seq<char>, c: char)
    ensures
        without_ellipsis(a + b) == without_ellipsis(a) + without_ellipsis(b),
        without_ellipsis(seq!['…']) == seq!['.', '.'],
        c != '…' ==> without_ellipsis(seq![c]) == seq![c],
    decreases b.len(),
{
    assert(seq!['…'].drop_last() =~= Seq::<char>::empty());
    assert(seq![c].drop_last() =~= Seq::<char>::empty());
    assert(without_ellipsis(Seq::<char>::empty()) =~= Seq::<char>::empty());
    assert(without_ellipsis(seq!['…']) =~= seq!['.', '.']);
    assert(c != '…' ==> without_ellipsis(seq![c]) =~= seq![c]);
    if b.len() == 0 {
        assert(a + b =~= a);
        assert(without_ellipsis(a) + without_ellipsis(b) =~= without_ellipsis(a));
    } else {
        lemma_without_ellipsis(a, b.drop_last(), c);
        assert((a + b).drop_last() =~= a + b.drop_last());
        assert((a + b).last() == b.last());
        assert(without_ellipsis(a + b) =~= without_ellipsis(a) + without_ellipsis(b));
    }
}

/// A window title as the NUL-terminated UTF-16 text `SetWindowTextW` takes, with
/// each `…` written as `..`.
pub fn title_to_wide(text: &str) -> (r: Vec<u16>)
    ensures
        r@ == utf16_encode(without_ellipsis(text@)).push(0),
{
    let chars = chars_of(text);
    let mut out: Vec<u16> = Vec::new();
    let mut i: usize = 0;
    assert(chars@.take(0) =~= Seq::<char>::empty());
    while i < chars.len()
        invariant
            i <= chars@.len(),
            chars@ == text@,
            out@ == utf16_encode(without_ellipsis(chars@.take(i as int))),
        decreases chars@.len() - i,
    {
        let c = chars[i];
        let ghost pre = chars@.take(i as int);
        assert(chars@.take(i + 1).drop_last() =~= pre);
        assert(chars@.take(i + 1).last() == c);
        if c == '…' {
            push_utf16(&mut out, '.');
            push_utf16(&mut out, '.');
            proof {
                lemma_utf16_append(without_ellipsis(pre), seq!['.', '.']);
                assert(seq!['.', '.'].drop_last() =~= seq!['.']);
                assert(seq!['.'].drop_last() =~= Seq::<char>::empty());
                assert(seq!['.'].last() == '.');
                assert(seq!['.', '.'].last() == '.');
                assert(utf16_encode(Seq::<char>::empty()) =~= Seq::<u16>::empty());
                assert(utf16_encode(seq!['.']) =~= utf16_of_char('.'));
                assert(utf16_encode(seq!['.', '.']) =~= utf16_of_char('.') + utf16_of_char('.'));
            }
        } else {
            push_utf16(&mut out, c);
            proof {
                lemma_utf16_append(without_ellipsis(pre), seq![c]);
                assert(seq![c].drop_last() =~= Seq::<char>::empty());
                assert(seq![c].last() == c);
                assert(utf16_encode(Seq::<char>::empty()) =~= Seq::<u16>::empty());
                assert(utf16_encode(seq![c]) =~= utf16_of_char(c));
                assert(without_ellipsis(pre).push(c) =~= without_ellipsis(pre) + seq![c]);
            }
        }
        i = i + 1;
    }
    assert(chars@.take(i as int) =~= chars@);
    out.push(0);
    out
}

/// The encoding of a concatenation is the concatenation of the encodings.
pub proof fn lemma_utf16_append(a: Seq<char>, b: Seq<char>)
    ensures
        utf16_encode(a + b) == utf16_encode(a) + utf16_encode(b),
    decreases b.len(),
{
    if b.len() == 0 {
        assert(a + b =~= a);
        assert(utf16_encode(b) =~= Seq::<u16>::empty());
        assert(utf16_encode(a) + utf16_encode(b) =~= utf16_encode(a));
    } else {
        lemma_utf16_append(a, b.drop_last());
        assert((a + b).drop_last() =~= a + b.drop_last());
        assert((a + b).last() == b.last());
        assert(utf16_encode(a + b) =~= utf16_encode(a) + utf16_encode(b));
    }
}

/// A little-endian 16-bit number at `off`.
pub open spec fn le16(b: Seq<u8>, off: int) -> nat {
    (b[off] + b[off + 1] * 256) as nat
}

/// A little-endian 32-bit number at `off`.
pub open spec fn le32(b: Seq<u8>, off: int) -> nat {
    (b[off] + b[off + 1] * 256 + b[off + 2] * 65536 + b[off + 3] * 16777216) as nat
}

/// One image of an icon file: where its bytes start and how many there are.
#[derive(Clone, Copy, Debug, PartialEq, Eq, Structural)]
pub struct IconImage {
    pub offset: u32,
    pub len: u32,
}

/// A candidate image: its size in pixels, offset and length.
pub struct IconCandidate {
    pub dim: u32,
    pub offset: u32,
    pub len: u32,
}

/// The number of images an icon file says it holds.
pub open spec fn icon_count(ico: Seq<u8>) -> nat {
    le16(ico, 4)
}

/// The size of directory entry `i` (a width byte of 0 means 256).
pub open spec fn entry_dim(ico: Seq<u8>, i: int) -> nat {
    if ico[6 + 16 * i] == 0 {
        256
    } else {
        ico[6 + 16 * i] as nat
    }
}

/// The byte length of the image of entry `i`.
pub open spec fn entry_len(ico: Seq<u8>, i: int) -> nat {
    le32(ico, 6 + 16 * i + 8)
}

/// The offset of the image of entry `i`.
pub open spec fn entry_offset(ico: Seq<u8>, i: int) -> nat {
    le32(ico, 6 + 16 * i + 12)
}

/// The best (size, offset, length) for the large and the small icon among the
/// first `k` entries: the large is the last nonempty entry of the largest size up
/// to 256, the small the last nonempty entry of the smallest size up to 32.
pub open spec fn icon_choice(ico: Seq<u8>, k: nat) -> ((nat, nat, nat), (nat, nat, nat))
    decreases k,
{
    if k == 0 {
        ((0, 0, 0), (256, 0, 0))
    } else {
        let (big, small) = icon_choice(ico, (k - 1) as nat);
        let i = k - 1;
        let d = entry_dim(ico, i);
        let len = entry_len(ico, i);
        let off = entry_offset(ico, i);
        let big2 = if d <= 256 && d >= big.0 && len > 0 {
            (d, off, len)
        } else {
            big
        };
        let small2 = if d <= 32 && d <= small.0 && len > 0 {
            (d, off, len)
        } else {
            small
        };
        (big2, small2)
    }
}

/// The images chosen from an icon file for the large and the small window icon,
/// each standing in for the other when only one is found. `None` when the file is
/// shorter than its header or its directory, or no entry is usable.
pub open spec fn icon_selection(ico: Seq<u8>) -> Option<(IconImage, IconImage)> {
    if ico.len() < 6 || 6 + 16 * icon_count(ico) > ico.len() {
        None
    } else {
        let (big, small) = icon_choice(ico, icon_count(ico));
        if big.2 == 0 && small.2 == 0 {
            None
        } else {
            let b = if big.2 == 0 {
                small
            } else {
                big
            };
            let s = if small.2 == 0 {
                big
            } else {
                small
            };
            Some(
                (
                    IconImage { offset: b.1 as u32, len: b.2 as u32 },
                    IconImage { offset: s.1 as u32, len: s.2 as u32 },
                ),
            )
        }
    }
}

/// Law: among the first `k` directory entries with an image, the large icon is
/// one of the largest size and the small icon one of the smallest size up to 32;
/// each is found exactly when such an entry exists.
pub proof fn lemma_icon_choice_extremes(ico: Seq<u8>, k: nat)
    ensures
        ({
            let (big, small) = icon_choice(ico, k);
            &&& big.2 == 0 ==> big.0 == 0
            &&& small.2 == 0 ==> small.0 == 256
            &&& (big.2 > 0 <==> exists|j: int| 0 <= j < k && entry_len(ico, j) > 0)
            &&& big.2 > 0 ==> exists|j: int|
                0 <= j < k && entry_len(ico, j) > 0 && big == (
                    entry_dim(ico, j),
                    entry_offset(ico, j),
                    entry_len(ico, j),
                )
            &&& forall|j: int| 0 <= j < k && entry_len(ico, j) > 0 ==> entry_dim(ico, j) <= big.0
            &&& (small.2 > 0 <==> exists|j: int|
                0 <= j < k && entry_len(ico, j) > 0 && entry_dim(ico, j) <= 32)
            &&& small.2 > 0 ==> exists|j: int|
                0 <= j < k && entry_len(ico, j) > 0 && entry_dim(ico, j) <= 32 && small == (
                    entry_dim(ico, j),
                    entry_offset(ico, j),
                    entry_len(ico, j),
                )
            &&& forall|j: int|
                0 <= j < k && entry_len(ico, j) > 0 && entry_dim(ico, j) <= 32 ==> small.0
                    <= entry_dim(ico, j)
        }),
    decreases k,
{
    if k > 0 {
        lemma_icon_choice_extremes(ico, (k - 1) as nat);
        let i = k - 1;
        assert(entry_dim(ico, i as int) <= 256);
        let (big0, small0) = icon_choice(ico, (k - 1) as nat);
        let (big, small) = icon_choice(ico, k);
        if entry_len(ico, i as int) > 0 {
            assert(exists|j: int| 0 <= j < k && entry_len(ico, j) > 0 && big == (
                entry_dim(ico, j),
                entry_offset(ico, j),
                entry_len(ico, j),
            )) by {
                if !(big0.0 <= entry_dim(ico, i as int)) {
                    let j = choose|j: int|
                        0 <= j < k - 1 && entry_len(ico, j) > 0 && big0 == (
                            entry_dim(ico, j),
                            entry_offset(ico, j),
                            entry_len(ico, j),
                        );
                    assert(0 <= j < k);
                }
            }
            if entry_dim(ico, i as int) <= 32 {
                assert(exists|j: int|
                    0 <= j < k && entry_len(ico, j) > 0 && entry_dim(ico, j) <= 32 && small == (
                        entry_dim(ico, j),
                        entry_offset(ico, j),
                        entry_len(ico, j),
                    )) by {
                    if !(entry_dim(ico, i as int) <= small0.0) {
                        let j = choose|j: int|
                            0 <= j < k - 1 && entry_len(ico, j) > 0 && entry_dim(ico, j) <= 32
                                && small0 == (
                                entry_dim(ico, j),
                                entry_offset(ico, j),
                                entry_len(ico, j),
                            );
                        assert(0 <= j < k);
                    }
                }
            }
        }
        assert forall|j: int| 0 <= j < k && entry_len(ico, j) > 0 implies entry_dim(ico, j)
            <= big.0 by {
            if j < k - 1 {
                assert(entry_dim(ico, j) <= big0.0);
            }
        }
        assert forall|j: int|
            0 <= j < k && entry_len(ico, j) > 0 && entry_dim(ico, j) <= 32 implies small.0
            <= entry_dim(ico, j) by {
            if j < k - 1 {
                assert(small0.0 <= entry_dim(ico, j));
            }
        }
    }
}

fn read_le32(b: &[u8], off: usize) -> (r: u32)
    requires
        off + 4 <= b@.len(),
    ensures
        r == le32(b@, off as int),
{
    (b[off] as u32) + (b[off + 1] as u32) * 256 + (b[off + 2] as u32) * 65536 + (b[off + 3] as u32)
        * 16777216
}

/// Chooses the images for the large and the small window icon from the bytes of
/// an icon file.
pub fn select_icon_images(ico: &[u8]) -> (r: Option<(IconImage, IconImage)>)
    ensures
        r == icon_selection(ico@),
{
    if ico.len() < 6 {
        return None;
    }
    let count: usize = (ico[4] as usize) + (ico[5] as usize) * 256;
    assert(count == icon_count(ico@));
    let mut big = IconCandidate { dim: 0, offset: 0, len: 0 };
    let mut small = IconCandidate { dim: 256, offset: 0, len: 0 };
    let mut i: usize = 0;
    while i < count
        invariant
            i <= count,
            count == icon_count(ico@),
            ico@.len() >= 6,
            icon_choice(ico@, i as nat) == (
                (big.dim as nat, big.offset as nat, big.len as nat),
                (small.dim as nat, small.offset as nat, small.len as nat),
            ),
            6 + 16 * i <= ico@.len(),
        decreases count - i,
    {
        let base = 6 + i * 16;
        if base + 16 > ico.len() {
            assert(6 + 16 * icon_count(ico@) > ico@.len());
            return None;
        }
        let w = ico[base] as u32;
        let size = read_le32(ico, base + 8);
        let offset = read_le32(ico, base + 12);
        let dim: u32 = if w == 0 {
            256
        } else {
            w
        };
        assert(dim == entry_dim(ico@, i as int));
        if dim <= 256 && dim >= big.dim && size > 0 {
            big = IconCandidate { dim, offset, len: size };
        }
        if dim <= 32 && dim <= small.dim && size > 0 {
            small = IconCandidate { dim, offset, len: size };
        }
        i = i + 1;
    }
    if big.len == 0 && small.len == 0 {
        return None;
    }
    let b = if big.len == 0 {
        IconImage { offset: small.offset, len: small.len }
    } else {
        IconImage { offset: big.offset, len: big.len }
    };
    let s = if small.len == 0 {
        IconImage { offset: big.offset, len: big.len }
    } else {
        IconImage { offset: small.offset, len: small.len }
    };
    Some((b, s))
}

/// The bytes of one icon image, when they lie within the file.
pub fn icon_image_bytes(ico: &[u8], image: IconImage) -> (r: Option<Vec<u8>>)
    ensures
        image.offset + image.len > ico@.len() ==> r is None,
        image.offset + image.len <= ico@.len() ==> (r matches Some(v) && v@ == ico@.subrange(
            image.offset as int,
            image.offset + image.len,
        )),
{
    let start = image.offset as u64;
    let end = start + image.len as u64;
    if end > ico.len() as u64 {
        return None;
    }
    let mut out: Vec<u8> = Vec::new();
    let mut k: usize = image.offset as usize;
    while k < end as usize
        invariant
            image.offset <= k <= end,
            end == image.offset + image.len,
            end <= ico@.len(),
            out@ =~= ico@.subrange(image.offset as int, k as int),
        decreases end - k,
    {
        out.push(ico[k]);
        k = k + 1;
    }
    Some(out)
}

/// The message when pixel data does not describe the image.
pub open spec fn invalid_pixels_message() -> Seq<char> {
    "Cannot copy image: invalid pixel data"@
}

/// Checks that `rgba_len` bytes are the RGBA pixels of a nonempty `width` x
/// `height` image.
pub fn check_clipboard_image(width: u32, height: u32, rgba_len: usize) -> (r: Result<(), String>)
    ensures
        (width == 0 || height == 0 || rgba_len != 4 * width * height) ==> (r matches Err(m) && m@
            == invalid_pixels_message()),
        !(width == 0 || height == 0 || rgba_len != 4 * width * height) ==> r is Ok,
{
    let w = width as u128;
    let h = height as u128;
    assert(w * h <= 0xFFFF_FFFF * 0xFFFF_FFFF) by (nonlinear_arith)
        requires
            w <= 0xFFFF_FFFF,
            h <= 0xFFFF_FFFF,
    ;
    let expected: u128 = w * h * 4;
    assert(expected == 4 * width * height) by (nonlinear_arith)
        requires
            expected == w * h * 4,
            w == width,
            h == height,
    ;
    if width == 0 || height == 0 || rgba_len as u128 != expected {
        return Err(crate::text::string_from_chars(&chars_of("Cannot copy image: invalid pixel data")));
    }
    Ok(())
}

} // verus!

verus! {

/// The four little-endian bytes of `v` (below 2^32).
pub open spec fn le32_bytes(v: nat) -> Seq<u8> {
    seq![(v % 256) as u8, ((v / 256) % 256) as u8, ((v / 65536) % 256) as u8, ((v / 16777216) % 256) as u8]
}

/// The 40-byte `BITMAPINFOHEADER` of a 32-bit `width` x `height` bitmap stored
/// bottom-up: header size, width, height, one plane, 32 bits per pixel, no
/// compression, the image size (truncated to 32 bits), and zeros.
pub open spec fn dib_header(width: u32, height: u32) -> Seq<u8> {
    le32_bytes(40) + le32_bytes(width as nat) + le32_bytes(height as nat) + seq![1u8, 0u8, 32u8, 0u8]
        + le32_bytes(0) + le32_bytes(((4 * width * height) % 0x1_0000_0000) as nat) + Seq::new(
        16,
        |i: int| 0u8,
    )
}

proof fn lemma_le32_bytes(v: u32)
    ensures
        le32(le32_bytes(v as nat), 0) == v,
{
    let b0 = v % 256;
    let b1 = (v / 256) % 256;
    let b2 = (v / 65536) % 256;
    let b3 = (v / 16777216) % 256;
    assert(b0 + b1 * 256 + b2 * 65536 + b3 * 16777216 == v) by (bit_vector)
        requires
            b0 == v % 256,
            b1 == (v / 256) % 256,
            b2 == (v / 65536) % 256,
            b3 == (v / 16777216) % 256,
    ;
    let s = le32_bytes(v as nat);
    assert(s[0] == b0 && s[1] == b1 && s[2] == b2 && s[3] == b3);
}

/// Law: the bitmap header describes the bitmap: a 40-byte header, the image's own
/// width then height, one plane of 32 bits per pixel, uncompressed, and the size of
/// the pixel data.
pub proof fn lemma_dib_header_fields(width: u32, height: u32)
    ensures
        dib_header(width, height).len() == 40,
        le32(dib_header(width, height), 0) == 40,
        le32(dib_header(width, height), 4) == width,
        le32(dib_header(width, height), 8) == height,
        le16(dib_header(width, height), 12) == 1,
        le16(dib_header(width, height), 14) == 32,
        le32(dib_header(width, height), 16) == 0,
        le32(dib_header(width, height), 20) == (4 * width * height) % 0x1_0000_0000,
{
    let h = dib_header(width, height);
    let size = ((4 * width * height) % 0x1_0000_0000) as u32;
    lemma_le32_bytes(40);
    lemma_le32_bytes(width);
    lemma_le32_bytes(height);
    lemma_le32_bytes(0);
    lemma_le32_bytes(size);
    assert(h.subrange(0, 4) =~= le32_bytes(40));
    assert(h.subrange(4, 8) =~= le32_bytes(width as nat));
    assert(h.subrange(8, 12) =~= le32_bytes(height as nat));
    assert(h.subrange(16, 20) =~= le32_bytes(0));
    assert(h.subrange(20, 24) =~= le32_bytes(size as nat));
    assert(le32(h, 0) == le32(h.subrange(0, 4), 0));
    assert(le32(h, 4) == le32(h.subrange(4, 8), 0));
    assert(le32(h, 8) == le32(h.subrange(8, 12), 0));
    assert(le32(h, 16) == le32(h.subrange(16, 20), 0));
    assert(le32(h, 20) == le32(h.subrange(20, 24), 0));
}

/// Which RGBA channel becomes channel `k` of a BGRA pixel.
pub open spec fn bgra_source(k: int) -> int {
    if k == 0 {
        2
    } else if k == 2 {
        0
    } else {
        k
    }
}

fn push_le32(out: &mut Vec<u8>, v: u32)
    ensures
        final(out)@ == old(out)@ + le32_bytes(v as nat),
{
    out.push((v % 256) as u8);
    out.push(((v / 256) % 256) as u8);
    out.push(((v / 65536) % 256) as u8);
    out.push(((v / 16777216) % 256) as u8);
    assert(final(out)@ =~= old(out)@ + le32_bytes(v as nat));
}

proof fn lemma_row_index(x: int, y: int, w: int, h: int)
    requires
        0 <= x < w,
        0 <= y < h,
    ensures
        0 <= ((h - 1 - y) * w + x) * 4 + 3 < 4 * w * h,
        0 <= (y * w + x) * 4,
        (y * w + x) * 4 + 4 <= 4 * w * h,
{
    assert(0 <= (h - 1 - y) * w) by (nonlinear_arith)
        requires
            0 <= y < h,
            0 < w,
    ;
    assert((h - 1 - y) * w + x <= (h - 1) * w + w - 1) by (nonlinear_arith)
        requires
            0 <= y < h,
            0 <= x < w,
    ;
    assert((h - 1) * w + w == h * w) by (nonlinear_arith);
    assert(4 * (h * w) == 4 * w * h) by (nonlinear_arith);
    assert(0 <= y * w) by (nonlinear_arith)
        requires
            0 <= y,
            0 < w,
    ;
    assert(y * w + x + 1 <= h * w) by (nonlinear_arith)
        requires
            0 <= y < h,
            0 <= x < w,
    ;
}

fn dib_header_bytes(width: u32, height: u32, total: usize) -> (r: Vec<u8>)
    requires
        total == 4 * width * height,
    ensures
        r@ == dib_header(width, height),
{
    let mut dib: Vec<u8> = Vec::new();
    push_le32(&mut dib, 40);
    push_le32(&mut dib, width);
    push_le32(&mut dib, height);
    let ghost p12 = dib@;
    dib.push(1);
    dib.push(0);
    dib.push(32);
    dib.push(0);
    assert(dib@ =~= p12 + seq![1u8, 0u8, 32u8, 0u8]);
    push_le32(&mut dib, 0);
    let size_image: u32 = ((total as u64) % 0x1_0000_0000) as u32;
    assert(size_image == (4 * width * height) % 0x1_0000_0000);
    push_le32(&mut dib, size_image);
    let ghost p24 = dib@;
    assert(p24 == le32_bytes(40) + le32_bytes(width as nat) + le32_bytes(height as nat) + seq![
        1u8,
        0u8,
        32u8,
        0u8,
    ] + le32_bytes(0) + le32_bytes(((4 * width * height) % 0x1_0000_0000) as nat));
    let mut z: usize = 0;
    while z < 16
        invariant
            z <= 16,
            p24.len() == 24,
            dib@.len() == 24 + z,
            dib@.subrange(0, 24) == p24,
            forall|i: int| 24 <= i < 24 + z ==> dib@[i] == 0u8,
        decreases 16 - z,
    {
        let ghost before = dib@;
        dib.push(0);
        assert(dib@.subrange(0, 24) =~= before.subrange(0, 24));
        z = z + 1;
    }
    assert(dib@ =~= p24 + Seq::new(16, |i: int| 0u8));
    dib
}

/// Appends row `y` of the bitmap: image row `h - 1 - y`, each pixel as BGRA.
fn push_dib_row(dib: &mut Vec<u8>, rgba: &[u8], w: usize, h: usize, y: usize)
    requires
        y < h,
        rgba@.len() == 4 * w * h,
        old(dib)@.len() + 4 * w <= usize::MAX,
    ensures
        final(dib)@.len() == old(dib)@.len() + 4 * w,
        final(dib)@.subrange(0, old(dib)@.len() as int) == old(dib)@,
        forall|px: int, k: int|
            0 <= px < w && 0 <= k < 4 ==> #[trigger] final(dib)@[old(dib)@.len() + px * 4 + k]
                == rgba@[((h - 1 - y) * w + px) * 4 + bgra_source(k)],
{
    let ghost start = dib@;
    let n = rgba.len();
    let mut x: usize = 0;
    while x < w
        invariant
            y < h,
            rgba@.len() == 4 * w * h,
            n == rgba@.len(),
            start.len() + 4 * w <= usize::MAX,
            x <= w,
            dib@.len() == start.len() + x * 4,
            dib@.subrange(0, start.len() as int) == start,
            forall|px: int, k: int|
                0 <= px < x && 0 <= k < 4 ==> #[trigger] dib@[start.len() + px * 4 + k]
                    == rgba@[((h - 1 - y) * w + px) * 4 + bgra_source(k)],
        decreases w - x,
    {
        proof {
            lemma_row_index(x as int, y as int, w as int, h as int);
        }
        let s = ((h - 1 - y) * w + x) * 4;
        let ghost before = dib@;
        dib.push(rgba[s + 2]);
        dib.push(rgba[s + 1]);
        dib.push(rgba[s]);
        dib.push(rgba[s + 3]);
        assert(dib@.subrange(0, start.len() as int) =~= before.subrange(0, start.len() as int));
        x = x + 1;
    }
}

/// The pixels of a `width` x `height` RGBA image as a Windows device-independent
/// bitmap: the header, then the rows from bottom to top with each pixel's bytes in
/// blue, green, red, alpha order.
pub fn encode_dib_bgra(width: u32, height: u32, rgba: &[u8]) -> (r: Vec<u8>)
    requires
        rgba@.len() == 4 * width * height,
        40 + 4 * width * height <= usize::MAX,
    ensures
        r@.len() == 40 + 4 * width * height,
        r@.subrange(0, 40) == dib_header(width, height),
        le32(r@, 4) == width,
        le32(r@, 8) == height,
        forall|x: int, y: int, k: int|
            0 <= x < width && 0 <= y < height && 0 <= k < 4 ==> #[trigger] r@[40 + (y * width + x) * 4
                + k] == rgba@[((height - 1 - y) * width + x) * 4 + bgra_source(k)],
        forall|x: int, y: int|
            0 <= x < width && 0 <= y < height ==> {
                &&& #[trigger] r@[40 + (y * width + x) * 4] == rgba@[((height - 1 - y) * width + x) * 4 + 2]
                &&& r@[40 + (y * width + x) * 4 + 1] == rgba@[((height - 1 - y) * width + x) * 4 + 1]
                &&& r@[40 + (y * width + x) * 4 + 2] == rgba@[((height - 1 - y) * width + x) * 4]
                &&& r@[40 + (y * width + x) * 4 + 3] == rgba@[((height - 1 - y) * width + x) * 4 + 3]
            },
{
    let w = width as usize;
    let h = height as usize;
    let total = rgba.len();
    let mut dib = dib_header_bytes(width, height, total);
    let ghost header = dib@;
    let mut y: usize = 0;
    while y < h
        invariant
            w == width,
            h == height,
            rgba@.len() == 4 * width * height,
            40 + 4 * width * height <= usize::MAX,
            y <= h,
            dib@.len() == 40 + (y * w) * 4,
            header.len() == 40,
            dib@.subrange(0, 40) == header,
            forall|px: int, py: int, k: int|
                0 <= px < w && 0 <= py < y && 0 <= k < 4 ==> #[trigger] dib@[40 + (py * w + px) * 4
                    + k] == rgba@[((h - 1 - py) * w + px) * 4 + bgra_source(k)],
        decreases h - y,
    {
        let ghost before = dib@;
        assert((y * w) * 4 + 4 * w <= 4 * w * h) by (nonlinear_arith)
            requires
                y < h,
        ;
        push_dib_row(&mut dib, rgba, w, h, y);
        proof {
            assert(dib@.subrange(0, 40) =~= before.subrange(0, 40)) by {
                assert(dib@.subrange(0, 40) =~= dib@.subrange(0, before.len() as int).subrange(0, 40));
            }
            assert forall|px: int, py: int, k: int|
                0 <= px < w && 0 <= py < y + 1 && 0 <= k < 4 implies #[trigger] dib@[40 + (py * w
                + px) * 4 + k] == rgba@[((h - 1 - py) * w + px) * 4 + bgra_source(k)] by {
                if py < y {
                    assert(py * w + px < y * w) by (nonlinear_arith)
                        requires
                            0 <= px < w,
                            0 <= py < y,
                    ;
                    assert(dib@[40 + (py * w + px) * 4 + k] == dib@.subrange(0, before.len() as int)[40
                        + (py * w + px) * 4 + k]);
                } else {
                    assert(40 + (py * w + px) * 4 + k == before.len() + px * 4 + k);
                }
            }
            assert((y * w + w) == (y + 1) * w) by (nonlinear_arith);
        }
        y = y + 1;
    }
    assert(dib@.len() == 40 + 4 * width * height) by (nonlinear_arith)
        requires
            dib@.len() == 40 + (y * w) * 4,
            y == h,
            w == width,
            h == height,
    ;
    proof {
        assert forall|x: int, y: int| 0 <= x < width && 0 <= y < height implies {
            &&& #[trigger] dib@[40 + (y * width + x) * 4] == rgba@[((height - 1 - y) * width + x) * 4 + 2]
            &&& dib@[40 + (y * width + x) * 4 + 1] == rgba@[((height - 1 - y) * width + x) * 4 + 1]
            &&& dib@[40 + (y * width + x) * 4 + 2] == rgba@[((height - 1 - y) * width + x) * 4]
            &&& dib@[40 + (y * width + x) * 4 + 3] == rgba@[((height - 1 - y) * width + x) * 4 + 3]
        } by {
            assert(dib@[40 + (y * width + x) * 4 + 0] == rgba@[((height - 1 - y) * width + x) * 4
                + bgra_source(0)]);
            assert(dib@[40 + (y * width + x) * 4 + 1] == rgba@[((height - 1 - y) * width + x) * 4
                + bgra_source(1)]);
            assert(dib@[40 + (y * width + x) * 4 + 2] == rgba@[((height - 1 - y) * width + x) * 4
                + bgra_source(2)]);
            assert(dib@[40 + (y * width + x) * 4 + 3] == rgba@[((height - 1 - y) * width + x) * 4
                + bgra_source(3)]);
        }
        lemma_dib_header_fields(width, height);
        assert(le32(dib@, 4) == le32(dib@.subrange(0, 40), 4));
        assert(le32(dib@, 8) == le32(dib@.subrange(0, 40), 8));
    }
    dib
}

} // verus!
