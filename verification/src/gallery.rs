//! The list of images in a folder and the position of the one shown.

use vstd::prelude::*;

use crate::paths::{
    opt_view, path_debug, path_extension, path_file_name, path_join, paths_equal,
    unicode_lowercase,
};
use crate::sort::{
    key_lt, keyed_view, lemma_stable_sort_items, lemma_stable_sort_sorted, sort_by_key,
    stable_sort, Keyed,
};
use crate::text::{
    ascii_lower_seq, ascii_lowercase_chars, chars_equal, chars_of, decimal, decimal_chars,
    extend_chars, string_from_chars,
};

verus! {

/// A directory entry as the filesystem reported it.
pub struct ListedFile {
    pub path: String,
    pub is_file: bool,
    /// The canonical form of `path`, when the filesystem could resolve it.
    pub canonical: Option<String>,
}

/// What a path names on the filesystem.
#[derive(Clone, Copy, Debug, PartialEq, Eq, Structural)]
pub enum PathKind {
    Directory,
    File,
    Missing,
}

/// The file extensions the viewer opens, in lowercase.
pub open spec fn image_extensions() -> Seq<Seq<char>> {
    seq![
        seq!['j', 'p', 'g'],
        seq!['j', 'p', 'e', 'g'],
        seq!['j', 'p', 'e'],
        seq!['j', 'f', 'i', 'f'],
        seq!['p', 'n', 'g'],
        seq!['b', 'm', 'p'],
        seq!['d', 'i', 'b'],
        seq!['g', 'i', 'f'],
        seq!['t', 'g', 'a'],
    ]
}

/// `ext` is one of the image extensions, ignoring ASCII case.
pub open spec fn is_image_extension(ext: Seq<char>) -> bool {
    image_extensions().contains(ascii_lower_seq(ext))
}

/// The path has an extension and it is an image extension.
pub open spec fn has_image_extension(path: Seq<char>) -> bool {
    match path_extension(path) {
        Some(e) => is_image_extension(e),
        None => false,
    }
}

/// A regular file whose extension is an image extension.
pub open spec fn is_image_file_spec(path: Seq<char>, is_file: bool) -> bool {
    is_file && has_image_extension(path)
}

/// The key images are ordered by: the lowercased file name (empty without one).
pub open spec fn name_key(path: Seq<char>) -> Seq<char> {
    match path_file_name(path) {
        Some(n) => unicode_lowercase(n),
        None => Seq::empty(),
    }
}

/// The image files of a listing, in listing order.
pub open spec fn image_files(listing: Seq<ListedFile>) -> Seq<ListedFile> {
    listing.filter(|f: ListedFile| is_image_file_spec(f.path@, f.is_file))
}

/// Each file paired with its ordering key.
pub open spec fn keyed_files(files: Seq<ListedFile>) -> Seq<(Seq<char>, ListedFile)> {
    files.map_values(|f: ListedFile| (name_key(f.path@), f))
}

/// The image files of a listing, stably sorted by lowercased file name.
pub open spec fn sorted_images(listing: Seq<ListedFile>) -> Seq<ListedFile> {
    stable_sort(keyed_files(image_files(listing))).map_values(|p: (Seq<char>, ListedFile)| p.1)
}

/// The paths of some files.
pub open spec fn file_paths(files: Seq<ListedFile>) -> Seq<Seq<char>> {
    files.map_values(|f: ListedFile| f.path@)
}

/// The characters of each string.
pub open spec fn string_views(s: Seq<String>) -> Seq<Seq<char>> {
    s.map_values(|x: String| x@)
}

/// Whether two paths name the same file: their canonical forms when both are
/// known, the paths themselves otherwise.
pub open spec fn same_path_spec(
    a: Seq<char>,
    b: Seq<char>,
    canonical_a: Option<Seq<char>>,
    canonical_b: Option<Seq<char>>,
) -> bool {
    match (canonical_a, canonical_b) {
        (Some(x), Some(y)) => paths_equal(x, y),
        _ => paths_equal(a, b),
    }
}

/// The first position in `files` that names the same file as `target`.
pub open spec fn first_same_path(
    files: Seq<ListedFile>,
    target: Seq<char>,
    target_canonical: Option<Seq<char>>,
) -> Option<nat>
    decreases files.len(),
{
    if files.len() == 0 {
        None
    } else if same_path_spec(files[0].path@, target, opt_view(files[0].canonical), target_canonical) {
        Some(0)
    } else {
        match first_same_path(files.drop_first(), target, target_canonical) {
            Some(k) => Some(k + 1),
            None => None,
        }
    }
}

/// The entries of the gallery opened on `initial`: the sorted images of its
/// folder, or `initial` alone when the folder has none.
pub open spec fn gallery_entries(initial: Seq<char>, listing: Seq<ListedFile>) -> Seq<Seq<char>> {
    let found = sorted_images(listing);
    if found.len() == 0 {
        seq![initial]
    } else {
        file_paths(found)
    }
}

/// The starting position of the gallery opened on `initial`: the first entry
/// naming the same file, else the first entry.
pub open spec fn gallery_start(
    initial: Seq<char>,
    listing: Seq<ListedFile>,
    initial_canonical: Option<Seq<char>>,
) -> nat {
    let found = sorted_images(listing);
    if found.len() == 0 {
        0
    } else {
        match first_same_path(found, initial, initial_canonical) {
            Some(k) => k,
            None => 0,
        }
    }
}

/// The file name of a path, or `"?"` when it has none.
pub open spec fn file_name_or_unknown(path: Seq<char>) -> Seq<char> {
    match path_file_name(path) {
        Some(n) => n,
        None => seq!['?'],
    }
}

/// `~` at the start of a path followed by separators, as `resolve_path` strips them.
pub open spec fn trim_separators(s: Seq<char>) -> Seq<char>
    decreases s.len(),
{
    if s.len() > 0 && (s[0] == '/' || s[0] == '\\') {
        trim_separators(s.drop_first())
    } else {
        s
    }
}

/// A path with a leading `~` replaced by the home directory.
pub open spec fn resolved_path(path: Seq<char>, home: Seq<char>) -> Seq<char> {
    if path.len() > 0 && path[0] == '~' {
        let rest = trim_separators(path.drop_first());
        if rest.len() == 0 {
            home
        } else {
            path_join(home, rest)
        }
    } else {
        path
    }
}

/// Next position, cyclically, when there is more than one entry.
pub open spec fn next_index_spec(index: nat, len: nat) -> Option<nat> {
    if len > 1 {
        Some((index + 1) % len)
    } else {
        None
    }
}

/// Previous position, cyclically, when there is more than one entry.
pub open spec fn prev_index_spec(index: nat, len: nat) -> Option<nat> {
    if len > 1 {
        Some(((index + len - 1) as nat) % len)
    } else {
        None
    }
}

/// The title fragment: `name [i/N]`, or `(no images)`.
pub open spec fn title_label_spec(entries: Seq<Seq<char>>, index: nat) -> Seq<char> {
    if entries.len() == 0 {
        "(no images)"@
    } else {
        file_name_or_unknown(entries[index as int]) + " ["@ + decimal(index + 1) + "/"@ + decimal(
            entries.len(),
        ) + "]"@
    }
}

/// The lowercase image extensions as character vectors.
pub(crate) fn image_extension_list() -> (v: Vec<Vec<char>>)
    ensures
        v@.len() == image_extensions().len(),
        forall|i: int| 0 <= i < v@.len() ==> #[trigger] v@[i]@ == image_extensions()[i],
{
    let v = vec![
        vec!['j', 'p', 'g'],
        vec!['j', 'p', 'e', 'g'],
        vec!['j', 'p', 'e'],
        vec!['j', 'f', 'i', 'f'],
        vec!['p', 'n', 'g'],
        vec!['b', 'm', 'p'],
        vec!['d', 'i', 'b'],
        vec!['g', 'i', 'f'],
        vec!['t', 'g', 'a'],
    ];
    assert(v@[0]@ =~= image_extensions()[0]);
    assert(v@[1]@ =~= image_extensions()[1]);
    assert(v@[2]@ =~= image_extensions()[2]);
    assert(v@[3]@ =~= image_extensions()[3]);
    assert(v@[4]@ =~= image_extensions()[4]);
    assert(v@[5]@ =~= image_extensions()[5]);
    assert(v@[6]@ =~= image_extensions()[6]);
    assert(v@[7]@ =~= image_extensions()[7]);
    assert(v@[8]@ =~= image_extensions()[8]);
    v
}

/// Whether `ext` is one of the image extensions, ignoring ASCII case.
pub fn is_image_extension_str(ext: &str) -> (r: bool)
    ensures
        r == is_image_extension(ext@),
{
    let lower = ascii_lowercase_chars(&chars_of(ext));
    let list = image_extension_list();
    let mut i: usize = 0;
    while i < list.len()
        invariant
            i <= list@.len(),
            list@.len() == image_extensions().len(),
            forall|k: int| 0 <= k < list@.len() ==> #[trigger] list@[k]@ == image_extensions()[k],
            lower@ == ascii_lower_seq(ext@),
            forall|k: int| 0 <= k < i ==> image_extensions()[k] != lower@,
        decreases list@.len() - i,
    {
        if chars_equal(&lower, &list[i]) {
            assert(image_extensions()[i as int] == lower@);
            return true;
        }
        i = i + 1;
    }
    assert(!image_extensions().contains(lower@)) by {
        if image_extensions().contains(lower@) {
            let k = choose|k: int| 0 <= k < image_extensions().len() && image_extensions()[k] == lower@;
            assert(image_extensions()[k] != lower@);
        }
    }
    false
}

/// Whether `path` names a regular file (`is_file`, as the filesystem reported it)
/// with an image extension.
pub fn is_image_file(path: &str, is_file: bool) -> (r: bool)
    ensures
        r == is_image_file_spec(path@, is_file),
{
    if !is_file {
        return false;
    }
    match crate::paths::extension(path) {
        Some(ext) => is_image_extension_str(ext.as_str()),
        None => false,
    }
}

/// The ordering key of a path: its file name, lowercased.
fn name_key_of(path: &str) -> (r: Vec<char>)
    ensures
        r@ == name_key(path@),
{
    match crate::paths::file_name(path) {
        Some(n) => chars_of(crate::paths::to_lowercase(n.as_str()).as_str()),
        None => Vec::new(),
    }
}

/// The image files of a listing, stably sorted by lowercased file name.
fn sorted_image_files(listing: Vec<ListedFile>) -> (r: Vec<ListedFile>)
    ensures
        r@ == sorted_images(listing@),
{
    let ghost orig = listing@;
    let ghost pred = |f: ListedFile| is_image_file_spec(f.path@, f.is_file);
    let mut rest = listing;
    let mut keyed: Vec<Keyed<ListedFile>> = Vec::new();
    let mut done: usize = 0;
    let n = rest.len();
    assert(orig.take(0).filter(pred) =~= Seq::<ListedFile>::empty());
    assert(rest@ =~= orig.skip(0));
    while rest.len() > 0
        invariant
            done + rest@.len() == orig.len(),
            orig.len() == n,
            n <= usize::MAX,
            pred == (|f: ListedFile| is_image_file_spec(f.path@, f.is_file)),
            rest@ == orig.skip(done as int),
            keyed_view(keyed@) == keyed_files(orig.take(done as int).filter(pred)),
        decreases rest@.len(),
    {
        let ghost rest_before = rest@;
        let f = rest.remove(0);
        assert(rest_before[0] == orig[done as int]);
        assert(orig.take(done + 1).drop_last() =~= orig.take(done as int));
        assert(orig.take(done + 1).last() == orig[done as int]);
        let ghost fv0 = f;
        assert(fv0 == orig.take(done + 1).last());
        reveal(Seq::filter);
        assert(pred(fv0) == is_image_file_spec(fv0.path@, fv0.is_file));
        if is_image_file(f.path.as_str(), f.is_file) {
            let key = name_key_of(f.path.as_str());
            let ghost before = keyed@;
            let ghost fv = f;
            keyed.push(Keyed { key, item: f });
            assert(keyed_view(keyed@) =~= keyed_view(before).push((name_key(fv.path@), fv)));
            assert(orig.take(done + 1).filter(pred) == orig.take(done as int).filter(pred).push(fv));
            assert(keyed_files(orig.take(done + 1).filter(pred)) =~= keyed_files(
                orig.take(done as int).filter(pred),
            ).push((name_key(fv.path@), fv)));
        } else {
            assert(orig.take(done + 1).filter(pred) == orig.take(done as int).filter(pred));
        }
        done = done + 1;
        assert(rest@ =~= orig.skip(done as int)) by {
            assert forall|i: int| 0 <= i < rest@.len() implies rest@[i] == orig.skip(
                done as int,
            )[i] by {
                assert(rest@[i] == rest_before[i + 1]);
            }
        }
    }
    assert(orig.take(done as int) =~= orig);
    let sorted = sort_by_key(keyed);
    let mut out: Vec<ListedFile> = Vec::new();
    let mut rest2 = sorted;
    let ghost target = stable_sort(keyed_files(image_files(orig)));
    let ghost all = keyed_view(rest2@);
    assert(all == target);
    let mut taken: usize = 0;
    let m = rest2.len();
    assert(all.len() == m);
    assert(keyed_view(rest2@) =~= all.skip(0));
    while rest2.len() > 0
        invariant
            taken + rest2@.len() == all.len(),
            all.len() == m,
            keyed_view(rest2@) == all.skip(taken as int),
            out@ =~= all.take(taken as int).map_values(|p: (Seq<char>, ListedFile)| p.1),
        decreases rest2@.len(),
    {
        let ghost before = rest2@;
        let k = rest2.remove(0);
        assert(keyed_view(before)[0] == all[taken as int]);
        out.push(k.item);
        taken = taken + 1;
        assert(all.take(taken as int).map_values(|p: (Seq<char>, ListedFile)| p.1) =~= all.take(
            taken - 1,
        ).map_values(|p: (Seq<char>, ListedFile)| p.1).push(all[taken - 1].1));
        assert(keyed_view(rest2@) =~= all.skip(taken as int)) by {
            assert forall|i: int| 0 <= i < rest2@.len() implies keyed_view(rest2@)[i] == all.skip(
                taken as int,
            )[i] by {
                assert(rest2@[i] == before[i + 1]);
                assert(keyed_view(before)[i + 1] == all.skip(taken - 1)[i + 1]);
            }
        }
    }
    assert(all.take(taken as int) =~= all);
    out
}

/// The image files of a directory listing (files whose extension is an image
/// extension), sorted by lowercased file name; files with equal keys keep the
/// listing's order.
pub fn scan_dir_images(listing: Vec<ListedFile>) -> (r: Vec<String>)
    ensures
        string_views(r@) == file_paths(sorted_images(listing@)),
{
    let files = sorted_image_files(listing);
    let mut out: Vec<String> = Vec::new();
    let mut i: usize = 0;
    while i < files.len()
        invariant
            i <= files@.len(),
            string_views(out@) =~= file_paths(files@.take(i as int)),
        decreases files@.len() - i,
    {
        out.push(files[i].path.clone());
        i = i + 1;
        assert(file_paths(files@.take(i as int)) =~= file_paths(files@.take(i - 1)).push(
            files@[i - 1].path@,
        ));
    }
    assert(files@.take(i as int) =~= files@);
    out
}

/// Whether two paths name the same file. `canonical_a` and `canonical_b` are the
/// paths' canonical forms where the filesystem could resolve them; when both are
/// known they are compared, otherwise the paths themselves. A path names the same
/// file as itself, and the answer does not depend on the order of the two.
pub fn same_path(a: &str, b: &str, canonical_a: &Option<String>, canonical_b: &Option<String>) -> (r:
    bool)
    ensures
        r == same_path_spec(a@, b@, opt_view(*canonical_a), opt_view(*canonical_b)),
        a@ == b@ && opt_view(*canonical_a) == opt_view(*canonical_b) ==> r,
        r == same_path_spec(b@, a@, opt_view(*canonical_b), opt_view(*canonical_a)),
{
    match (canonical_a, canonical_b) {
        (Some(ca), Some(cb)) => crate::paths::equal(ca.as_str(), cb.as_str()),
        _ => crate::paths::equal(a, b),
    }
}

/// The file name of a path, or `"?"` when it has none.
pub fn file_name_of(path: &str) -> (r: String)
    ensures
        r@ == file_name_or_unknown(path@),
{
    match crate::paths::file_name(path) {
        Some(n) => n,
        None => string_from_chars(&vec!['?']),
    }
}

/// Replaces a leading `~` with `home`, the user's home directory; other paths are
/// returned unchanged.
pub fn resolve_path(path: String, home: &str) -> (r: String)
    ensures
        r@ == resolved_path(path@, home@),
{
    let chars = chars_of(path.as_str());
    if chars.len() > 0 && chars[0] == '~' {
        let mut i: usize = 1;
        assert(chars@.skip(1) =~= chars@.drop_first());
        while i < chars.len() && (chars[i] == '/' || chars[i] == '\\')
            invariant
                1 <= i <= chars@.len(),
                trim_separators(chars@.skip(i as int)) == trim_separators(chars@.drop_first()),
            decreases chars@.len() - i,
        {
            assert(chars@.skip(i as int)[0] == chars@[i as int]);
            assert(chars@.skip(i as int).drop_first() =~= chars@.skip(i + 1));
            i = i + 1;
        }
        assert(trim_separators(chars@.skip(i as int)) == chars@.skip(i as int)) by {
            if i < chars@.len() {
                assert(chars@.skip(i as int)[0] == chars@[i as int]);
            }
        }
        let rest = string_from_chars(&chars_slice(&chars, i));
        if i == chars.len() {
            assert(rest@.len() == 0);
            string_from_chars(&chars_of(home))
        } else {
            crate::paths::join(home, rest.as_str())
        }
    } else {
        path
    }
}

/// The characters of `v` from position `from` on.
fn chars_slice(v: &Vec<char>, from: usize) -> (r: Vec<char>)
    requires
        from <= v@.len(),
    ensures
        r@ == v@.skip(from as int),
{
    let mut out: Vec<char> = Vec::new();
    let mut i: usize = from;
    while i < v.len()
        invariant
            from <= i <= v@.len(),
            out@ =~= v@.subrange(from as int, i as int),
        decreases v@.len() - i,
    {
        out.push(v[i]);
        i = i + 1;
    }
    out
}

/// The characters of a string literal followed by a path in `Debug` form.
fn message_with_path(prefix: &str, path: &str) -> (r: String)
    ensures
        r@ == prefix@ + path_debug(path@),
{
    let mut v = chars_of(prefix);
    let d = chars_of(crate::paths::debug(path).as_str());
    extend_chars(&mut v, &d);
    string_from_chars(&v)
}

/// The file an invocation opens first, with its canonical form: the first image
/// of the folder named, or the file named when it came from the command line;
/// `None` when there is none.
pub open spec fn startup_file(
    from_argument: bool,
    resolved: Seq<char>,
    kind: PathKind,
    listing: Seq<ListedFile>,
    resolved_canonical: Option<Seq<char>>,
) -> Option<(Seq<char>, Option<Seq<char>>)> {
    match kind {
        PathKind::Directory => if sorted_images(listing).len() > 0 {
            Some((sorted_images(listing)[0].path@, opt_view(sorted_images(listing)[0].canonical)))
        } else {
            None
        },
        PathKind::File => if from_argument {
            Some((resolved, resolved_canonical))
        } else {
            None
        },
        PathKind::Missing => None,
    }
}

/// Why an invocation opens no file.
pub open spec fn startup_error(from_argument: bool, resolved: Seq<char>, kind: PathKind) -> Seq<
    char,
> {
    match kind {
        PathKind::Directory => if from_argument {
            "No image files found in directory: "@ + path_debug(resolved)
        } else {
            "No image files found in ~/Pictures directory: "@ + path_debug(resolved)
        },
        _ => if from_argument {
            "Path does not exist or is not a file/directory: "@ + path_debug(resolved)
        } else {
            "~/Pictures directory does not exist: "@ + path_debug(resolved)
        },
    }
}

/// The file an invocation opens first. `resolved` is the argument (or `~/Pictures`
/// when there was none, `from_argument` false) after `resolve_path`; `kind` is what
/// it names and `listing` its entries when it is a directory.
pub fn resolve_initial_path(
    from_argument: bool,
    resolved: &str,
    kind: PathKind,
    listing: Vec<ListedFile>,
) -> (r: Result<String, String>)
    ensures
        match startup_file(from_argument, resolved@, kind, listing@, None) {
            Some((p, _)) => r matches Ok(x) && x@ == p,
            None => r matches Err(e) && e@ == startup_error(from_argument, resolved@, kind),
        },
{
    match kind {
        PathKind::Directory => {
            let files = sorted_image_files(listing);
            if files.len() > 0 {
                Ok(files[0].path.clone())
            } else if from_argument {
                Err(message_with_path("No image files found in directory: ", resolved))
            } else {
                Err(message_with_path("No image files found in ~/Pictures directory: ", resolved))
            }
        },
        PathKind::File => {
            if from_argument {
                Ok(string_from_chars(&chars_of(resolved)))
            } else {
                Err(message_with_path("~/Pictures directory does not exist: ", resolved))
            }
        },
        PathKind::Missing => {
            if from_argument {
                Err(message_with_path("Path does not exist or is not a file/directory: ", resolved))
            } else {
                Err(message_with_path("~/Pictures directory does not exist: ", resolved))
            }
        },
    }
}

} // verus!

verus! {

/// The image list of a folder, with the position of the image shown.
pub struct Gallery {
    pub entries: Vec<String>,
    pub index: usize,
}

/// The position of the first listed file naming the same file as `target`.
fn position_of_same(files: &Vec<ListedFile>, target: &str, target_canonical: &Option<String>) -> (r:
    Option<usize>)
    ensures
        match first_same_path(files@, target@, opt_view(*target_canonical)) {
            Some(k) => r == Some(k as usize),
            None => r is None,
        },
{
    let mut i: usize = 0;
    assert(files@.skip(0) =~= files@);
    assert(first_same_path(files@, target@, opt_view(*target_canonical)) == match first_same_path(
        files@.skip(0),
        target@,
        opt_view(*target_canonical),
    ) {
        Some(k) => Some((k + 0) as nat),
        None => None,
    }) by {
        match first_same_path(files@, target@, opt_view(*target_canonical)) {
            Some(k) => {},
            None => {},
        }
    }
    while i < files.len()
        invariant
            i <= files@.len(),
            first_same_path(files@, target@, opt_view(*target_canonical)) == match first_same_path(
                files@.skip(i as int),
                target@,
                opt_view(*target_canonical),
            ) {
                Some(k) => Some((k + i) as nat),
                None => None,
            },
        decreases files@.len() - i,
    {
        assert(files@.skip(i as int)[0] == files@[i as int]);
        if same_path(files[i].path.as_str(), target, &files[i].canonical, target_canonical) {
            return Some(i);
        }
        assert(files@.skip(i as int).drop_first() =~= files@.skip(i + 1));
        i = i + 1;
    }
    None
}

fn copy_opt_string(s: &Option<String>) -> (r: Option<String>)
    ensures
        r == *s,
{
    match s {
        Some(x) => Some(x.clone()),
        None => None,
    }
}

fn copy_listing(listing: &Vec<ListedFile>) -> (r: Vec<ListedFile>)
    ensures
        r@ == listing@,
{
    let mut out: Vec<ListedFile> = Vec::new();
    let mut i: usize = 0;
    while i < listing.len()
        invariant
            i <= listing@.len(),
            out@ =~= listing@.take(i as int),
        decreases listing@.len() - i,
    {
        let f = &listing[i];
        out.push(ListedFile { path: f.path.clone(), is_file: f.is_file, canonical: copy_opt_string(&f.canonical) });
        i = i + 1;
    }
    assert(listing@.take(i as int) =~= listing@);
    out
}

impl Gallery {
    /// The entries as character sequences.
    pub open spec fn entry_views(&self) -> Seq<Seq<char>> {
        string_views(self.entries@)
    }

    /// Opens the folder of `initial`. `listing` is what the folder holds (its path
    /// is `Path::parent` of `initial`, or the current folder) and
    /// `initial_canonical` the canonical form of `initial`, where known. The
    /// entries are the folder's images sorted by lowercased name, or `initial`
    /// alone when there are none; the position is that of the first entry naming
    /// the same file as `initial`, else the first.
    pub fn from_image_path(
        initial: String,
        listing: Vec<ListedFile>,
        initial_canonical: Option<String>,
    ) -> (r: Result<Gallery, String>)
        ensures
            r matches Ok(g) && {
                &&& g.entry_views() == gallery_entries(initial@, listing@)
                &&& g.index == gallery_start(initial@, listing@, opt_view(initial_canonical))
                &&& g.entries@.len() > 0
                &&& g.index < g.entries@.len()
            },
    {
        let files = sorted_image_files(listing);
        if files.len() == 0 {
            let mut entries: Vec<String> = Vec::new();
            entries.push(initial);
            assert(string_views(entries@) =~= seq![initial@]);
            return Ok(Gallery { entries, index: 0 });
        }
        let index = match position_of_same(&files, initial.as_str(), &initial_canonical) {
            Some(k) => k,
            None => 0,
        };
        proof {
            lemma_first_same_path_bound(files@, initial@, opt_view(initial_canonical));
        }
        let mut entries: Vec<String> = Vec::new();
        let mut i: usize = 0;
        while i < files.len()
            invariant
                i <= files@.len(),
                string_views(entries@) =~= file_paths(files@.take(i as int)),
            decreases files@.len() - i,
        {
            entries.push(files[i].path.clone());
            i = i + 1;
            assert(file_paths(files@.take(i as int)) =~= file_paths(files@.take(i - 1)).push(
                files@[i - 1].path@,
            ));
        }
        assert(files@.take(i as int) =~= files@);
        Ok(Gallery { entries, index })
    }

    /// Opens the gallery for an invocation: the file chosen as `resolve_initial_path`
    /// chooses it, in its folder. `listing` is what that folder holds: the entries
    /// of `resolved` when it is a directory, of its parent when it is a file.
    /// `resolved_canonical` is the canonical form of `resolved`, where known.
    pub fn from_startup_arg(
        from_argument: bool,
        resolved: &str,
        kind: PathKind,
        listing: Vec<ListedFile>,
        resolved_canonical: Option<String>,
    ) -> (r: Result<Gallery, String>)
        ensures
            match startup_file(from_argument, resolved@, kind, listing@, opt_view(resolved_canonical)) {
                Some((p, c)) => r matches Ok(g) && {
                    &&& g.entry_views() == gallery_entries(p, listing@)
                    &&& g.index == gallery_start(p, listing@, c)
                    &&& g.index < g.entries@.len()
                },
                None => r matches Err(e) && e@ == startup_error(from_argument, resolved@, kind),
            },
    {
        let canonical = match kind {
            PathKind::Directory => {
                let files = sorted_image_files(copy_listing(&listing));
                if files.len() > 0 {
                    copy_opt_string(&files[0].canonical)
                } else {
                    None
                }
            },
            _ => resolved_canonical,
        };
        match resolve_initial_path(from_argument, resolved, kind, copy_listing(&listing)) {
            Ok(initial) => Gallery::from_image_path(initial, listing, canonical),
            Err(e) => Err(e),
        }
    }

    /// Whether the gallery holds no image.
    pub fn is_empty(&self) -> (r: bool)
        ensures
            r == (self.entries@.len() == 0),
    {
        self.entries.len() == 0
    }

    /// The number of images.
    pub fn len(&self) -> (r: usize)
        ensures
            r == self.entries@.len(),
    {
        self.entries.len()
    }

    /// The path of the image shown, if the position is within the list.
    pub fn current(&self) -> (r: Option<&String>)
        ensures
            self.index < self.entries@.len() ==> r == Some(&self.entries@[self.index as int]),
            self.index >= self.entries@.len() ==> r is None,
    {
        if self.index < self.entries.len() {
            Some(&self.entries[self.index])
        } else {
            None
        }
    }

    /// The path of the image shown.
    pub fn current_path(&self) -> (r: String)
        requires
            self.index < self.entries@.len(),
        ensures
            r@ == self.entries@[self.index as int]@,
    {
        self.entries[self.index].clone()
    }

    /// The next position, cyclically; `None` when there is at most one image.
    pub fn next_index(&self) -> (r: Option<usize>)
        ensures
            match next_index_spec(self.index as nat, self.entries@.len()) {
                Some(k) => r == Some(k as usize),
                None => r is None,
            },
    {
        let n = self.entries.len();
        if n > 1 {
            let i = self.index % n;
            proof {
                vstd::arithmetic::div_mod::lemma_add_mod_noop(self.index as int, 1, n as int);
                vstd::arithmetic::div_mod::lemma_small_mod(1, n as nat);
                vstd::arithmetic::div_mod::lemma_mod_bound(self.index as int, n as int);
            }
            Some((i + 1) % n)
        } else {
            None
        }
    }

    /// The previous position, cyclically; `None` when there is at most one image.
    pub fn prev_index(&self) -> (r: Option<usize>)
        ensures
            match prev_index_spec(self.index as nat, self.entries@.len()) {
                Some(k) => r == Some(k as usize),
                None => r is None,
            },
    {
        let n = self.entries.len();
        if n > 1 {
            let i = self.index % n;
            proof {
                vstd::arithmetic::div_mod::lemma_mod_bound(self.index as int, n as int);
                vstd::arithmetic::div_mod::lemma_add_mod_noop(self.index as int, n - 1, n as int);
                vstd::arithmetic::div_mod::lemma_small_mod((n - 1) as nat, n as nat);
                if i > 0 {
                    vstd::arithmetic::div_mod::lemma_mod_add_multiples_vanish(i - 1, n as int);
                    vstd::arithmetic::div_mod::lemma_small_mod((i - 1) as nat, n as nat);
                    assert(i + (n - 1) == (i - 1) + n);
                }
            }
            if i == 0 {
                Some(n - 1)
            } else {
                Some(i - 1)
            }
        } else {
            None
        }
    }

    /// Removes the image shown after it was deleted. Returns its file name and
    /// whether the gallery is now empty; the position moves to the following image,
    /// or to the new last one when the last was removed.
    pub fn remove_current(&mut self) -> (r: Option<(String, bool)>)
        requires
            old(self).entries@.len() > 0 ==> old(self).index < old(self).entries@.len(),
        ensures
            old(self).entries@.len() == 0 ==> r is None && final(self).entries@ == old(self).entries@ && final(self).index == old(self).index,
            old(self).entries@.len() > 0 ==> {
                &&& r matches Some((name, empty)) && name@ == file_name_or_unknown(
                    old(self).entries@[old(self).index as int]@,
                ) && empty == (final(self).entries@.len() == 0)
                &&& final(self).entries@ == old(self).entries@.remove(old(self).index as int)
                &&& final(self).index == if final(self).entries@.len() == 0 {
                    old(self).index as int
                } else if old(self).index < final(self).entries@.len() {
                    old(self).index as int
                } else {
                    final(self).entries@.len() - 1
                }
                &&& final(self).entries@.len() > 0 ==> final(self).index < final(self).entries@.len()
            },
    {
        if self.entries.len() == 0 {
            return None;
        }
        let name = file_name_of(self.entries[self.index].as_str());
        self.entries.remove(self.index);
        let empty = self.entries.len() == 0;
        if !empty {
            if self.index > self.entries.len() - 1 {
                self.index = self.entries.len() - 1;
            }
        }
        Some((name, empty))
    }

    /// Puts `path` right after the image shown (where a saved crop goes) and returns
    /// its position; the position shown does not change.
    pub fn insert_after_current(&mut self, path: String) -> (r: usize)
        requires
            old(self).index < old(self).entries@.len(),
        ensures
            r == old(self).index + 1,
            final(self).entries@ == old(self).entries@.insert(r as int, path),
            final(self).index == old(self).index,
    {
        let n = self.entries.len();
        assert(self.index < n);
        let at = self.index + 1;
        self.entries.insert(at, path);
        at
    }

    /// The title fragment `name [i/N]` for the image shown, or `(no images)`.
    pub fn title_label(&self) -> (r: String)
        requires
            self.entries@.len() > 0 ==> self.index < self.entries@.len(),
        ensures
            r@ == title_label_spec(self.entry_views(), self.index as nat),
    {
        if self.entries.len() == 0 {
            return string_from_chars(&chars_of("(no images)"));
        }
        let mut v = chars_of(file_name_of(self.entries[self.index].as_str()).as_str());
        extend_chars(&mut v, &chars_of(" ["));
        extend_chars(&mut v, &decimal_chars((self.index + 1) as u128));
        extend_chars(&mut v, &chars_of("/"));
        extend_chars(&mut v, &decimal_chars(self.entries.len() as u128));
        extend_chars(&mut v, &chars_of("]"));
        string_from_chars(&v)
    }
}

/// A position found by `first_same_path` lies within the files.
proof fn lemma_first_same_path_bound(
    files: Seq<ListedFile>,
    target: Seq<char>,
    target_canonical: Option<Seq<char>>,
)
    ensures
        first_same_path(files, target, target_canonical) matches Some(k) ==> k < files.len(),
    decreases files.len(),
{
    if files.len() > 0 {
        lemma_first_same_path_bound(files.drop_first(), target, target_canonical);
    }
}

/// Law: stepping forward then back, or back then forward, returns to the same
/// position.
pub proof fn lemma_prev_undoes_next(index: nat, len: nat)
    requires
        len > 1,
        index < len,
    ensures
        next_index_spec(index, len) matches Some(n) && prev_index_spec(n, len) == Some(index),
        prev_index_spec(index, len) matches Some(p) && next_index_spec(p, len) == Some(index),
{
    let n = (index + 1) % len;
    if index + 1 < len {
        assert(n == index + 1) by {
            vstd::arithmetic::div_mod::lemma_small_mod((index + 1) as nat, len);
        }
        assert((n + len - 1) as nat % len == index) by {
            assert(n + len - 1 == index + len);
            vstd::arithmetic::div_mod::lemma_mod_add_multiples_vanish(index as int, len as int);
            vstd::arithmetic::div_mod::lemma_small_mod(index, len);
        }
    } else {
        assert(n == 0) by {
            vstd::arithmetic::div_mod::lemma_mod_self_0(len as int);
        }
        assert((n + len - 1) as nat % len == index) by {
            vstd::arithmetic::div_mod::lemma_small_mod((len - 1) as nat, len);
        }
    }
    let p = ((index + len - 1) as nat) % len;
    if index > 0 {
        assert(p == index - 1) by {
            vstd::arithmetic::div_mod::lemma_mod_add_multiples_vanish((index - 1) as int, len as int);
            vstd::arithmetic::div_mod::lemma_small_mod((index - 1) as nat, len);
        }
        assert((p + 1) % len == index) by {
            vstd::arithmetic::div_mod::lemma_small_mod(index, len);
        }
    } else {
        assert(p == len - 1) by {
            vstd::arithmetic::div_mod::lemma_small_mod((len - 1) as nat, len);
        }
        assert((p + 1) % len == index) by {
            vstd::arithmetic::div_mod::lemma_mod_self_0(len as int);
        }
    }
}

/// Law: navigation never leaves the list.
pub proof fn lemma_navigation_in_range(index: nat, len: nat)
    ensures
        next_index_spec(index, len) matches Some(n) ==> n < len,
        prev_index_spec(index, len) matches Some(p) ==> p < len,
{
    if len > 1 {
        vstd::arithmetic::div_mod::lemma_mod_bound((index + 1) as int, len as int);
        vstd::arithmetic::div_mod::lemma_mod_bound((index + len - 1) as int, len as int);
    }
}

/// The position after `k` steps forward from `index`.
pub open spec fn steps_forward(index: nat, len: nat, k: nat) -> nat
    decreases k,
{
    if k == 0 {
        index
    } else {
        match next_index_spec(steps_forward(index, len, (k - 1) as nat), len) {
            Some(n) => n,
            None => steps_forward(index, len, (k - 1) as nat),
        }
    }
}

proof fn lemma_steps_forward_mod(index: nat, len: nat, k: nat)
    requires
        len > 1,
        index < len,
    ensures
        steps_forward(index, len, k) == (index + k) % len,
    decreases k,
{
    if k == 0 {
        vstd::arithmetic::div_mod::lemma_small_mod(index, len);
    } else {
        lemma_steps_forward_mod(index, len, (k - 1) as nat);
        vstd::arithmetic::div_mod::lemma_add_mod_noop((index + k - 1) as int, 1, len as int);
        vstd::arithmetic::div_mod::lemma_small_mod(1, len);
    }
}

/// Law: navigation is cyclic: as many steps forward as there are images lead
/// back to the image shown.
pub proof fn lemma_next_cycles(index: nat, len: nat)
    requires
        len > 1,
        index < len,
    ensures
        steps_forward(index, len, len) == index,
{
    lemma_steps_forward_mod(index, len, len);
    vstd::arithmetic::div_mod::lemma_mod_add_multiples_vanish(index as int, len as int);
    vstd::arithmetic::div_mod::lemma_small_mod(index, len);
}

/// Law: the images of a folder come sorted by lowercased file name, and they are
/// exactly its image files (each as often as it is listed).
pub proof fn lemma_sorted_images(listing: Seq<ListedFile>)
    ensures
        forall|i: int, j: int|
            0 <= i < j < sorted_images(listing).len() ==> !key_lt(
                name_key(#[trigger] sorted_images(listing)[j].path@),
                name_key(#[trigger] sorted_images(listing)[i].path@),
            ),
        sorted_images(listing).to_multiset() == image_files(listing).to_multiset(),
{
    let files = image_files(listing);
    let keyed = keyed_files(files);
    let sorted = stable_sort(keyed);
    lemma_stable_sort_items(keyed);
    lemma_stable_sort_sorted(keyed);
    assert(keyed.map_values(|p: (Seq<char>, ListedFile)| p.1) =~= files);
    assert forall|i: int| 0 <= i < sorted.len() implies #[trigger] sorted[i].0 == name_key(
        sorted[i].1.path@,
    ) by {
        assert(keyed.contains(sorted[i]));
        let k = choose|k: int| 0 <= k < keyed.len() && keyed[k] == sorted[i];
        assert(keyed[k] == (name_key(files[k].path@), files[k]));
    }
    assert forall|i: int, j: int|
        0 <= i < j < sorted_images(listing).len() implies !key_lt(
        name_key(#[trigger] sorted_images(listing)[j].path@),
        name_key(#[trigger] sorted_images(listing)[i].path@),
    ) by {
        assert(sorted_images(listing)[i] == sorted[i].1);
        assert(sorted_images(listing)[j] == sorted[j].1);
        assert(sorted[i].0 == name_key(sorted[i].1.path@));
        assert(sorted[j].0 == name_key(sorted[j].1.path@));
        assert(!key_lt(sorted[j].0, sorted[i].0));
    }
}

/// The first position naming the same file as the target is one, and no earlier
/// position is; there is none exactly when no position names it.
proof fn lemma_first_same_path_found(
    files: Seq<ListedFile>,
    target: Seq<char>,
    target_canonical: Option<Seq<char>>,
)
    ensures
        match first_same_path(files, target, target_canonical) {
            Some(k) => k < files.len() && same_path_spec(
                files[k as int].path@,
                target,
                opt_view(files[k as int].canonical),
                target_canonical,
            ) && forall|j: int|
                0 <= j < k ==> !same_path_spec(
                    #[trigger] files[j].path@,
                    target,
                    opt_view(files[j].canonical),
                    target_canonical,
                ),
            None => forall|j: int|
                0 <= j < files.len() ==> !same_path_spec(
                    #[trigger] files[j].path@,
                    target,
                    opt_view(files[j].canonical),
                    target_canonical,
                ),
        },
    decreases files.len(),
{
    if files.len() > 0 {
        let rest = files.drop_first();
        lemma_first_same_path_found(rest, target, target_canonical);
        assert forall|j: int| 1 <= j < files.len() implies files[j] == rest[j - 1] by {}
    }
}

/// Law: the gallery opens on the image it was opened with: when one of the
/// folder's images names the same file, the first such image is the one shown;
/// otherwise the first image is.
pub proof fn lemma_opens_on_initial(
    initial: Seq<char>,
    listing: Seq<ListedFile>,
    initial_canonical: Option<Seq<char>>,
)
    requires
        sorted_images(listing).len() > 0,
    ensures
        ({
            let found = sorted_images(listing);
            let k = gallery_start(initial, listing, initial_canonical) as int;
            if exists|j: int|
                0 <= j < found.len() && same_path_spec(
                    #[trigger] found[j].path@,
                    initial,
                    opt_view(found[j].canonical),
                    initial_canonical,
                ) {
                &&& same_path_spec(found[k].path@, initial, opt_view(found[k].canonical), initial_canonical)
                &&& forall|j: int|
                    0 <= j < k ==> !same_path_spec(
                        #[trigger] found[j].path@,
                        initial,
                        opt_view(found[j].canonical),
                        initial_canonical,
                    )
            } else {
                k == 0
            }
        }),
{
    lemma_first_same_path_found(sorted_images(listing), initial, initial_canonical);
}

/// Law: the viewer opens exactly the files whose extension is, ignoring ASCII
/// case, one of jpg, jpeg, jpe, jfif, png, bmp, dib, gif and tga.
pub proof fn lemma_image_extension_list(e: Seq<char>)
    ensures
        is_image_extension(e) <==> ({
            let l = ascii_lower_seq(e);
            l == "jpg"@ || l == "jpeg"@ || l == "jpe"@ || l == "jfif"@ || l == "png"@ || l == "bmp"@ || l == "dib"@ || l == "gif"@ || l == "tga"@
        }),
{
    reveal_strlit("jpg");
    reveal_strlit("jpeg");
    reveal_strlit("jpe");
    reveal_strlit("jfif");
    reveal_strlit("png");
    reveal_strlit("bmp");
    reveal_strlit("dib");
    reveal_strlit("gif");
    reveal_strlit("tga");
    assert(image_extensions()[0] =~= "jpg"@);
    assert(image_extensions()[1] =~= "jpeg"@);
    assert(image_extensions()[2] =~= "jpe"@);
    assert(image_extensions()[3] =~= "jfif"@);
    assert(image_extensions()[4] =~= "png"@);
    assert(image_extensions()[5] =~= "bmp"@);
    assert(image_extensions()[6] =~= "dib"@);
    assert(image_extensions()[7] =~= "gif"@);
    assert(image_extensions()[8] =~= "tga"@);
    let l = ascii_lower_seq(e);
    if is_image_extension(e) {
        let i = choose|i: int| 0 <= i < image_extensions().len() && image_extensions()[i] == l;
        assert(0 <= i < 9);
    }
    if l == "jpg"@ || l == "jpeg"@ || l == "jpe"@ || l == "jfif"@ || l == "png"@ || l == "bmp"@ || l == "dib"@ || l == "gif"@ || l == "tga"@ {
        let i: int = if l == "jpg"@ {
            0
        } else if l == "jpeg"@ {
            1
        } else if l == "jpe"@ {
            2
        } else if l == "jfif"@ {
            3
        } else if l == "png"@ {
            4
        } else if l == "bmp"@ {
            5
        } else if l == "dib"@ {
            6
        } else if l == "gif"@ {
            7
        } else {
            8
        };
        assert(image_extensions()[i] == l);
    }
}

} // verus!
