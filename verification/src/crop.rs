//! Names for the files the viewer writes: cropped and pasted images.

use vstd::prelude::*;

use crate::paths::{path_extension, path_file_stem, path_join, path_parent};
use crate::text::{chars_of, decimal, decimal_chars, extend_chars, string_from_chars};
use crate::version::{all_digits, is_digit};

verus! {

/// `pat` occurs in `s` at position `i`.
pub open spec fn occurs_at(s: Seq<char>, pat: Seq<char>, i: int) -> bool {
    0 <= i && i + pat.len() <= s.len() && s.subrange(i, i + pat.len()) == pat
}

/// The last position at or before `k` where `pat` occurs in `s`.
pub open spec fn last_occurrence_upto(s: Seq<char>, pat: Seq<char>, k: nat) -> Option<nat>
    decreases k,
{
    if occurs_at(s, pat, k as int) {
        Some(k)
    } else if k == 0 {
        None
    } else {
        last_occurrence_upto(s, pat, (k - 1) as nat)
    }
}

/// The last position where `pat` occurs in `s` (what `str::rfind` finds).
pub open spec fn last_occurrence(s: Seq<char>, pat: Seq<char>) -> Option<nat> {
    if s.len() < pat.len() {
        None
    } else {
        last_occurrence_upto(s, pat, (s.len() - pat.len()) as nat)
    }
}

/// A file stem without a trailing `_crop<digits>`, so crops of crops are not
/// named `x_crop1_crop2`.
pub open spec fn crop_base_spec(stem: Seq<char>) -> Seq<char> {
    match last_occurrence(stem, "_crop"@) {
        Some(i) => {
            let rest = stem.skip((i + 5) as int);
            if rest.len() > 0 && all_digits(rest) {
                stem.take(i as int)
            } else {
                stem
            }
        },
        None => stem,
    }
}

/// The `count`-th candidate path for a crop of `source`: next to it, named
/// `<stem>_crop<count>.<extension>`, with `image` and `png` standing in for a
/// missing stem or extension.
pub open spec fn crop_candidate_spec(source: Seq<char>, count: nat) -> Seq<char> {
    let parent = match path_parent(source) {
        Some(p) => p,
        None => Seq::empty(),
    };
    let stem = match path_file_stem(source) {
        Some(s) => s,
        None => "image"@,
    };
    let ext = match path_extension(source) {
        Some(e) => e,
        None => "png"@,
    };
    path_join(parent, crop_base_spec(stem) + "_crop"@ + decimal(count) + "."@ + ext)
}

/// The decimal form of a number is a nonempty run of digits.
proof fn lemma_decimal_digits(n: nat)
    ensures
        decimal(n).len() > 0,
        all_digits(decimal(n)),
    decreases n,
{
    if n >= 10 {
        lemma_decimal_digits(n / 10);
        let d = decimal(n / 10).push(crate::text::digit_char(n % 10));
        assert(decimal(n) == d);
        assert forall|i: int| 0 <= i < d.len() implies is_digit(#[trigger] d[i]) by {
            if i < d.len() - 1 {
                assert(d[i] == decimal(n / 10)[i]);
            }
        }
    }
}

/// After the end of `x`, `x + "_crop" + d` holds no `_crop` when `d` is digits.
proof fn lemma_no_crop_after(x: Seq<char>, d: Seq<char>, k: int)
    requires
        all_digits(d),
        x.len() < k,
    ensures
        !occurs_at(x + "_crop"@ + d, "_crop"@, k),
{
    reveal_strlit("_crop");
    let t = x + "_crop"@ + d;
    if occurs_at(t, "_crop"@, k) {
        assert(t.subrange(k, k + 5)[0] == t[k]);
        assert(t[k] == '_');
        if k < x.len() + 5 {
            assert(t[k] == "_crop"@[k - x.len()]);
        } else {
            assert(t[k] == d[k - x.len() - 5]);
            assert(is_digit(d[k - x.len() - 5]));
        }
    }
}

/// The last `_crop` of `x + "_crop" + d`, looking from `k` back, is the one after `x`.
proof fn lemma_last_crop_upto(x: Seq<char>, d: Seq<char>, k: nat)
    requires
        all_digits(d),
        x.len() <= k,
        k + 5 <= x.len() + 5 + d.len(),
    ensures
        last_occurrence_upto(x + "_crop"@ + d, "_crop"@, k) == Some(x.len()),
    decreases k - x.len(),
{
    reveal_strlit("_crop");
    let t = x + "_crop"@ + d;
    if k == x.len() {
        assert(t.subrange(k as int, (k + 5) as int) =~= "_crop"@);
    } else {
        lemma_no_crop_after(x, d, k as int);
        lemma_last_crop_upto(x, d, (k - 1) as nat);
    }
}

/// Law: the base of a name made for a crop, `x_crop<n>`, is `x`; so the crop of
/// a crop is numbered from the same base instead of getting a second suffix.
pub proof fn lemma_crop_name_base(x: Seq<char>, n: nat)
    ensures
        crop_base_spec(x + "_crop"@ + decimal(n)) == x,
{
    reveal_strlit("_crop");
    let d = decimal(n);
    let t = x + "_crop"@ + d;
    lemma_decimal_digits(n);
    lemma_last_crop_upto(x, d, (t.len() - 5) as nat);
    assert(t.skip((x.len() + 5) as int) =~= d);
    assert(t.take(x.len() as int) =~= x);
}

fn matches_at(s: &Vec<char>, pat: &Vec<char>, i: usize) -> (r: bool)
    requires
        i + pat@.len() <= s@.len(),
    ensures
        r == occurs_at(s@, pat@, i as int),
{
    let n = s.len();
    let mut k: usize = 0;
    while k < pat.len()
        invariant
            n == s@.len(),
            i + pat@.len() <= s@.len(),
            k <= pat@.len(),
            forall|j: int| 0 <= j < k ==> s@[i + j] == pat@[j],
        decreases pat@.len() - k,
    {
        if s[i + k] != pat[k] {
            assert(s@.subrange(i as int, i + pat@.len())[k as int] != pat@[k as int]);
            return false;
        }
        k = k + 1;
    }
    assert(s@.subrange(i as int, i + pat@.len()) =~= pat@);
    true
}

fn rfind_chars(s: &Vec<char>, pat: &Vec<char>) -> (r: Option<usize>)
    ensures
        match last_occurrence(s@, pat@) {
            Some(i) => r == Some(i as usize),
            None => r is None,
        },
{
    if s.len() < pat.len() {
        return None;
    }
    let mut k: usize = s.len() - pat.len();
    loop
        invariant
            pat@.len() <= s@.len(),
            k + pat@.len() <= s@.len(),
            last_occurrence(s@, pat@) == last_occurrence_upto(s@, pat@, k as nat),
        decreases k,
    {
        if matches_at(s, pat, k) {
            return Some(k);
        }
        if k == 0 {
            return None;
        }
        k = k - 1;
    }
}

/// A position found by `last_occurrence` is one where the pattern occurs.
proof fn lemma_last_occurrence_occurs(s: Seq<char>, pat: Seq<char>, k: nat)
    ensures
        last_occurrence_upto(s, pat, k) matches Some(i) ==> occurs_at(s, pat, i as int),
    decreases k,
{
    if k > 0 {
        lemma_last_occurrence_occurs(s, pat, (k - 1) as nat);
    }
}

fn skip_chars(v: &Vec<char>, from: usize) -> (r: Vec<char>)
    requires
        from <= v@.len(),
    ensures
        r@ == v@.skip(from as int),
{
    let mut out: Vec<char> = Vec::new();
    let mut i: usize = from;
    while i < v.len()
        invariant
            from <= i <= v@.len(),
            out@ =~= v@.subrange(from as int, i as int),
        decreases v@.len() - i,
    {
        out.push(v[i]);
        i = i + 1;
    }
    out
}

fn take_chars(v: &Vec<char>, n: usize) -> (r: Vec<char>)
    requires
        n <= v@.len(),
    ensures
        r@ == v@.take(n as int),
{
    let mut out: Vec<char> = Vec::new();
    let mut i: usize = 0;
    while i < n
        invariant
            i <= n,
            n <= v@.len(),
            out@ =~= v@.take(i as int),
        decreases n - i,
    {
        out.push(v[i]);
        i = i + 1;
    }
    out
}

fn digits_only(v: &Vec<char>) -> (r: bool)
    ensures
        r == all_digits(v@),
{
    let mut i: usize = 0;
    while i < v.len()
        invariant
            i <= v@.len(),
            forall|j: int| 0 <= j < i ==> is_digit(#[trigger] v@[j]),
        decreases v@.len() - i,
    {
        if !('0' <= v[i] && v[i] <= '9') {
            assert(!is_digit(v@[i as int]));
            return false;
        }
        i = i + 1;
    }
    true
}

/// A file stem without a trailing `_crop<digits>`.
pub fn crop_base_stem(stem: &str) -> (r: String)
    ensures
        r@ == crop_base_spec(stem@),
{
    let s = chars_of(stem);
    let pat = chars_of("_crop");
    let n = s.len();
    proof {
        reveal_strlit("_crop");
        if s@.len() >= pat@.len() {
            lemma_last_occurrence_occurs(s@, pat@, (s@.len() - pat@.len()) as nat);
        }
    }
    match rfind_chars(&s, &pat) {
        Some(i) => {
            assert(i + 5 <= n);
            let rest = skip_chars(&s, i + 5);
            if rest.len() > 0 && digits_only(&rest) {
                string_from_chars(&take_chars(&s, i))
            } else {
                string_from_chars(&s)
            }
        },
        None => string_from_chars(&s),
    }
}

/// The `count`-th candidate path for a crop of the image at `source`; the
/// first that does not exist yet is used.
pub fn crop_candidate_path(source: &str, count: u64) -> (r: String)
    ensures
        r@ == crop_candidate_spec(source@, count as nat),
{
    let parent = match crate::paths::parent(source) {
        Some(p) => p,
        None => string_from_chars(&Vec::new()),
    };
    let stem = match crate::paths::file_stem(source) {
        Some(s) => s,
        None => string_from_chars(&chars_of("image")),
    };
    let ext = match crate::paths::extension(source) {
        Some(e) => e,
        None => string_from_chars(&chars_of("png")),
    };
    let mut name = chars_of(crop_base_stem(stem.as_str()).as_str());
    extend_chars(&mut name, &chars_of("_crop"));
    extend_chars(&mut name, &decimal_chars(count as u128));
    extend_chars(&mut name, &chars_of("."));
    extend_chars(&mut name, &chars_of(ext.as_str()));
    let file_name = string_from_chars(&name);
    crate::paths::join(parent.as_str(), file_name.as_str())
}

/// The name a pasted image is saved under: `xemanh-<millis>.jpg`, where `millis`
/// is the time of the paste in milliseconds since the Unix epoch.
pub fn pasted_file_name(millis: u128) -> (r: String)
    ensures
        r@ == "xemanh-"@ + decimal(millis as nat) + ".jpg"@,
{
    let mut v = chars_of("xemanh-");
    extend_chars(&mut v, &decimal_chars(millis));
    extend_chars(&mut v, &chars_of(".jpg"));
    string_from_chars(&v)
}

} // verus!
