use vstd::prelude::*;

use crate::text::{chars_of, contains_chars, contains_seq, occurs_at, ends_with_chars, push_str, string_from_chars};

verus! {

/// `Path::join` on Unix: an absolute `rel` replaces `base`; otherwise a
/// separator is added unless `base` is empty or already ends with one.
pub open spec fn join_path(base: Seq<char>, rel: Seq<char>) -> Seq<char> {
    if rel.len() > 0 && rel[0] == '/' {
        rel
    } else if base.len() > 0 && base.last() != '/' {
        base + seq!['/'] + rel
    } else {
        base + rel
    }
}

/// `base` joined with `rel`.
pub fn join(base: &str, rel: &str) -> (r: String)
    ensures
        r@ == join_path(base@, rel@),
{
    let b = chars_of(base);
    let rc = chars_of(rel);
    let mut out: Vec<char> = Vec::new();
    if rc.len() > 0 && rc[0] == '/' {
        push_str(&mut out, rel);
    } else if b.len() > 0 && b[b.len() - 1] != '/' {
        push_str(&mut out, base);
        out.push('/');
        push_str(&mut out, rel);
    } else {
        push_str(&mut out, base);
        push_str(&mut out, rel);
    }
    assert(out@ =~= join_path(base@, rel@));
    string_from_chars(&out)
}

// ---------------------------------------------------------------------------
// Path components (std)
// ---------------------------------------------------------------------------

/// What `Path::parent` returns for a path with these characters.
pub uninterp spec fn path_parent(p: Seq<char>) -> Option<Seq<char>>;

/// What `Path::file_name` returns for a path with these characters.
pub uninterp spec fn path_file_name(p: Seq<char>) -> Option<Seq<char>>;

/// The position of the last '.' in `name`, if any.
pub open spec fn last_dot(name: Seq<char>) -> Option<int>
    decreases name.len(),
{
    if name.len() == 0 {
        None
    } else if name.last() == '.' {
        Some(name.len() - 1)
    } else {
        last_dot(name.drop_last())
    }
}

/// Where a file name splits into stem and extension: at its last '.',
/// unless it has none or its only '.' is the leading one.
pub open spec fn extension_dot(name: Seq<char>) -> Option<int> {
    match last_dot(name) {
        Some(i) => if i > 0 {
            Some(i)
        } else {
            None
        },
        None => None,
    }
}

/// `Path::file_stem`, as its documentation gives it: none without a file
/// name; the whole file name if it has no '.' but a leading one;
/// otherwise the part before the last '.'.
pub open spec fn path_file_stem(p: Seq<char>) -> Option<Seq<char>> {
    match path_file_name(p) {
        Some(name) => match extension_dot(name) {
            Some(i) => Some(name.take(i)),
            None => Some(name),
        },
        None => None,
    }
}

/// `Path::extension`, as its documentation gives it: none without a file
/// name or without a '.' but a leading one; otherwise the part after the
/// last '.'.
pub open spec fn path_extension(p: Seq<char>) -> Option<Seq<char>> {
    match path_file_name(p) {
        Some(name) => match extension_dot(name) {
            Some(i) => Some(name.skip(i + 1)),
            None => None,
        },
        None => None,
    }
}

/// What `Path::starts_with` answers for these two paths (whole components).
pub uninterp spec fn path_starts_with(p: Seq<char>, base: Seq<char>) -> bool;

/// The view of an optional string.
pub open spec fn opt_view(o: Option<String>) -> Option<Seq<char>> {
    match o {
        Some(s) => Some(s@),
        None => None,
    }
}

/// `Path::parent`: the path without its last component; the result depends
/// on the path alone and is named `path_parent`.
#[verifier::external_body]
pub(crate) fn parent_of(p: &str) -> (r: Option<String>)
    ensures
        opt_view(r) == path_parent(p@),
{
    std::path::Path::new(p).parent().map(|q| q.to_string_lossy().into_owned())
}

/// `Path::file_name`: the last component, unless it is `..`; named
/// `path_file_name`.
#[verifier::external_body]
pub(crate) fn file_name_of(p: &str) -> (r: Option<String>)
    ensures
        opt_view(r) == path_file_name(p@),
{
    std::path::Path::new(p).file_name().map(|n| n.to_string_lossy().into_owned())
}

/// `Path::file_stem`: the file name without its extension, as
/// `path_file_stem` states it over the file name.
#[verifier::external_body]
pub(crate) fn file_stem_of(p: &str) -> (r: Option<String>)
    ensures
        opt_view(r) == path_file_stem(p@),
{
    std::path::Path::new(p).file_stem().map(|n| n.to_string_lossy().into_owned())
}

/// `Path::extension`: the text after the last dot of the file name, as
/// `path_extension` states it over the file name.
#[verifier::external_body]
pub(crate) fn extension_of(p: &str) -> (r: Option<String>)
    ensures
        opt_view(r) == path_extension(p@),
{
    std::path::Path::new(p).extension().map(|n| n.to_string_lossy().into_owned())
}

/// `Path::starts_with`: whether `base` is a prefix of `p` by whole
/// components; named `path_starts_with`.
#[verifier::external_body]
pub(crate) fn starts_with_path(p: &str, base: &str) -> (r: bool)
    ensures
        r == path_starts_with(p@, base@),
{
    std::path::Path::new(p).starts_with(base)
}

/// What `==` on two `Path`s answers: equal component by component.
pub uninterp spec fn path_eq(a: Seq<char>, b: Seq<char>) -> bool;

/// Two paths are the same path: the same text, or the same components.
pub open spec fn paths_equal(a: Seq<char>, b: Seq<char>) -> bool {
    a == b || path_eq(a, b)
}

/// `Path::eq`: whether two paths have the same components; named `path_eq`.
/// Like every `Eq`, it holds of a path and itself.
#[verifier::external_body]
pub(crate) fn same_path(a: &str, b: &str) -> (r: bool)
    ensures
        r == path_eq(a@, b@),
        a@ == b@ ==> r,
{
    std::path::Path::new(a) == std::path::Path::new(b)
}

// ---------------------------------------------------------------------------
// The trash
// ---------------------------------------------------------------------------

/// Whether a path lies in a trash folder.
pub open spec fn in_trash(p: Seq<char>) -> bool {
    contains_seq(p, "/.local/share/Trash"@) || contains_seq(p, "/Trash/"@) || "/Trash"@.is_suffix_of(p)
        || "/Trash/files"@.is_suffix_of(p)
}

/// What lies below a trash path is in the trash too: joining a relative
/// path onto a path in the trash gives a path in the trash.
pub proof fn lemma_below_trash(p: Seq<char>, rel: Seq<char>)
    requires
        in_trash(p),
        !(rel.len() > 0 && rel[0] == '/'),
    ensures
        in_trash(join_path(p, rel)),
{
    let q = join_path(p, rel);
    reveal_strlit("/.local/share/Trash");
    reveal_strlit("/Trash/");
    reveal_strlit("/Trash");
    reveal_strlit("/Trash/files");
    assert(p.len() > 0 && p.last() != '/' ==> q =~= p + seq!['/'] + rel);
    assert(!(p.len() > 0 && p.last() != '/') ==> q =~= p + rel);
    assert(q.len() >= p.len());
    assert(q.subrange(0, p.len() as int) =~= p);
    if contains_seq(p, "/.local/share/Trash"@) {
        let i = choose|i: int| occurs_at(p, "/.local/share/Trash"@, i);
        assert(q.subrange(i, i + 19) =~= p.subrange(i, i + 19));
        assert(occurs_at(q, "/.local/share/Trash"@, i));
    } else if contains_seq(p, "/Trash/"@) {
        let i = choose|i: int| occurs_at(p, "/Trash/"@, i);
        assert(q.subrange(i, i + 7) =~= p.subrange(i, i + 7));
        assert(occurs_at(q, "/Trash/"@, i));
    } else if "/Trash"@.is_suffix_of(p) {
        let i = p.len() - 6;
        assert(p.subrange(i, p.len() as int) =~= "/Trash"@);
        assert(p.subrange(i, p.len() as int)[5] == p[p.len() - 1]);
        assert(p.last() == 'h');
        assert(q[p.len() as int] == '/');
        assert forall|k: int| 0 <= k < 7 implies #[trigger] q.subrange(i, i + 7)[k] == "/Trash/"@[k] by {
            if k < 6 {
                assert(q[i + k] == p.subrange(i, p.len() as int)[k]);
            }
        }
        assert(q.subrange(i, i + 7) =~= "/Trash/"@);
        assert(occurs_at(q, "/Trash/"@, i));
    } else {
        let i = p.len() - 12;
        assert("/Trash/files"@.is_suffix_of(p));
        assert(p.subrange(i, p.len() as int) =~= "/Trash/files"@);
        assert(p.subrange(i, p.len() as int)[11] == p[p.len() - 1]);
        assert(p.last() == 's');
        assert(p.subrange(i, i + 7) =~= "/Trash/files"@.subrange(0, 7));
        assert("/Trash/files"@.subrange(0, 7) =~= "/Trash/"@);
        assert(q.subrange(i, i + 7) =~= p.subrange(i, i + 7));
        assert(occurs_at(q, "/Trash/"@, i));
    }
}

/// Whether `path` lies in a trash folder, where deleting removes for good.
pub fn is_in_trash(path: &str) -> (r: bool)
    ensures
        r == in_trash(path@),
{
    let s = chars_of(path);
    contains_chars(&s, &chars_of("/.local/share/Trash")) || contains_chars(&s, &chars_of("/Trash/"))
        || ends_with_chars(&s, &chars_of("/Trash")) || ends_with_chars(&s, &chars_of("/Trash/files"))
}

} // verus!
