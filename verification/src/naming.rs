use vstd::prelude::*;
use vstd::set_lib::{lemma_int_range, lemma_len_subset, lemma_map_size, set_int_range};

use crate::paths::{
    extension_of, file_name_of, file_stem_of, join, join_path, parent_of, path_extension,
    path_file_name, path_file_stem, path_parent,
};
use crate::text::{
    chars_equal, chars_of, decimal, lemma_decimal_injective, lemma_decimal_nonempty, push_all,
    push_decimal, push_str, string_from_chars,
};

verus! {

/// The characters of each string.
pub open spec fn views(v: Seq<String>) -> Seq<Seq<char>> {
    v.map_values(|s: String| s@)
}

/// The `k`-th candidate name (`k >= 1`): `prefix` + `suffix` first, then
/// `prefix` + " " + `k` + `suffix`.
pub open spec fn numbered_name(prefix: Seq<char>, suffix: Seq<char>, k: nat) -> Seq<char> {
    if k <= 1 {
        prefix + suffix
    } else {
        prefix + seq![' '] + decimal(k) + suffix
    }
}

/// `name` is the `k`-th candidate, and the first that is not taken.
pub open spec fn is_first_free(
    name: Seq<char>,
    prefix: Seq<char>,
    suffix: Seq<char>,
    taken: Seq<Seq<char>>,
    k: nat,
) -> bool {
    &&& 1 <= k
    &&& name == numbered_name(prefix, suffix, k)
    &&& !taken.contains(name)
    &&& forall|j: nat| 1 <= j < k ==> taken.contains(#[trigger] numbered_name(prefix, suffix, j))
}

/// The first free candidate is unique: the name chosen is determined by
/// the prefix, the suffix and the names taken.
pub proof fn lemma_first_free_unique(
    n1: Seq<char>,
    n2: Seq<char>,
    prefix: Seq<char>,
    suffix: Seq<char>,
    taken: Seq<Seq<char>>,
    k1: nat,
    k2: nat,
)
    requires
        is_first_free(n1, prefix, suffix, taken, k1),
        is_first_free(n2, prefix, suffix, taken, k2),
    ensures
        n1 == n2,
        k1 == k2,
{
    if k1 < k2 {
        assert(taken.contains(numbered_name(prefix, suffix, k1)));
    } else if k2 < k1 {
        assert(taken.contains(numbered_name(prefix, suffix, k2)));
    }
}

/// Different numbers give different candidates.
pub proof fn lemma_numbered_name_injective(prefix: Seq<char>, suffix: Seq<char>, a: nat, b: nat)
    requires
        1 <= a,
        1 <= b,
        numbered_name(prefix, suffix, a) == numbered_name(prefix, suffix, b),
    ensures
        a == b,
{
    lemma_decimal_nonempty(a);
    lemma_decimal_nonempty(b);
    let na = numbered_name(prefix, suffix, a);
    let nb = numbered_name(prefix, suffix, b);
    if a > 1 && b > 1 {
        let p: int = prefix.len() as int + 1;
        assert(na == prefix + seq![' '] + decimal(a) + suffix);
        assert(nb == prefix + seq![' '] + decimal(b) + suffix);
        assert(na.len() == prefix.len() + 1 + decimal(a).len() + suffix.len());
        assert(nb.len() == prefix.len() + 1 + decimal(b).len() + suffix.len());
        assert(decimal(a).len() == decimal(b).len());
        assert(na.subrange(p, p + decimal(a).len() as int) =~= decimal(a));
        assert(nb.subrange(p, p + decimal(b).len() as int) =~= decimal(b));
        lemma_decimal_injective(a, b);
    } else if a > 1 {
        assert(na.len() != nb.len());
    } else if b > 1 {
        assert(na.len() != nb.len());
    }
}

/// Among more candidates than there are taken names, one is free.
pub proof fn lemma_some_candidate_free(
    prefix: Seq<char>,
    suffix: Seq<char>,
    taken: Seq<Seq<char>>,
    m: nat,
)
    requires
        m > taken.len(),
    ensures
        exists|j: nat| 1 <= j <= m && !taken.contains(#[trigger] numbered_name(prefix, suffix, j)),
{
    if forall|j: nat| 1 <= j <= m ==> taken.contains(#[trigger] numbered_name(prefix, suffix, j)) {
        lemma_candidates_fit(prefix, suffix, taken, m);
    }
}

proof fn lemma_candidates_fit(prefix: Seq<char>, suffix: Seq<char>, taken: Seq<Seq<char>>, m: nat)
    requires
        forall|j: nat| 1 <= j <= m ==> taken.contains(#[trigger] numbered_name(prefix, suffix, j)),
    ensures
        m <= taken.len(),
{
    let x = set_int_range(1, m as int + 1);
    lemma_int_range(1, m as int + 1);
    let f = |j: int| numbered_name(prefix, suffix, j as nat);
    assert(vstd::relations::injective_on(f, x)) by {
        assert forall|a: int, b: int| x.contains(a) && x.contains(b) && #[trigger] f(a) == #[trigger] f(
            b,
        ) implies a == b by {
            lemma_numbered_name_injective(prefix, suffix, a as nat, b as nat);
        }
    }
    let y = x.map(f);
    lemma_map_size(x, y, f);
    assert(y.subset_of(taken.to_set())) by {
        assert forall|n: Seq<char>| y.contains(n) implies taken.to_set().contains(n) by {
            let j = choose|j: int| x.contains(j) && f(j) == n;
            assert(taken.contains(numbered_name(prefix, suffix, j as nat)));
        }
    }
    lemma_len_subset(y, taken.to_set());
    taken.lemma_cardinality_of_set();
}

/// Whether `name` is one of `taken`.
fn is_taken(name: &Vec<char>, taken: &Vec<Vec<char>>) -> (r: bool)
    ensures
        r == taken@.map_values(|v: Vec<char>| v@).contains(name@),
{
    let ghost tv = taken@.map_values(|v: Vec<char>| v@);
    let mut i: usize = 0;
    while i < taken.len()
        invariant
            i <= taken.len(),
            tv == taken@.map_values(|v: Vec<char>| v@),
            forall|j: int| 0 <= j < i ==> tv[j] != name@,
        decreases taken.len() - i,
    {
        if chars_equal(&taken[i], name) {
            assert(tv[i as int] == name@);
            return true;
        }
        i = i + 1;
    }
    false
}

fn all_chars(v: &Vec<String>) -> (r: Vec<Vec<char>>)
    ensures
        r@.map_values(|c: Vec<char>| c@) == views(v@),
{
    let mut r: Vec<Vec<char>> = Vec::new();
    let mut i: usize = 0;
    while i < v.len()
        invariant
            i <= v.len(),
            r@.len() == i,
            forall|j: int| 0 <= j < i ==> (#[trigger] r@[j])@ == v@[j]@,
        decreases v.len() - i,
    {
        r.push(chars_of(v[i].as_str()));
        i = i + 1;
    }
    assert(r@.map_values(|c: Vec<char>| c@) =~= views(v@));
    r
}

fn build_numbered(prefix: &Vec<char>, suffix: &Vec<char>, k: u64) -> (r: Vec<char>)
    requires
        k >= 1,
    ensures
        r@ == numbered_name(prefix@, suffix@, k as nat),
{
    let mut out: Vec<char> = Vec::new();
    push_all(&mut out, prefix);
    if k > 1 {
        out.push(' ');
        push_decimal(k, &mut out);
    }
    push_all(&mut out, suffix);
    assert(out@ =~= numbered_name(prefix@, suffix@, k as nat));
    out
}

/// The first candidate name (`prefix` + `suffix`, then `prefix` + " 2" +
/// `suffix`, and so on) that is not among `taken`.
pub fn first_free_name(prefix: &Vec<char>, suffix: &Vec<char>, taken: &Vec<String>) -> (r: Vec<char>)
    requires
        taken.len() < usize::MAX,
    ensures
        exists|k: nat| is_first_free(r@, prefix@, suffix@, views(taken@), k),
{
    let ghost tv = views(taken@);
    let taken_chars = all_chars(taken);
    let mut k: u64 = 1;
    loop
        invariant
            tv == views(taken@),
            taken_chars@.map_values(|c: Vec<char>| c@) == tv,
            taken.len() < usize::MAX,
            1 <= k <= taken.len() + 1,
            forall|j: nat| 1 <= j < k ==> tv.contains(#[trigger] numbered_name(prefix@, suffix@, j)),
        decreases taken.len() + 1 - k,
    {
        let candidate = build_numbered(prefix, suffix, k);
        if !is_taken(&candidate, &taken_chars) {
            assert(is_first_free(candidate@, prefix@, suffix@, tv, k as nat));
            return candidate;
        }
        if k as usize == taken.len() + 1 {
            proof {
                lemma_some_candidate_free(prefix@, suffix@, tv, k as nat);
                let j = choose|j: nat|
                    1 <= j <= k && !tv.contains(#[trigger] numbered_name(prefix@, suffix@, j));
                assert(j < k || j == k);
            }
        }
        k = k + 1;
    }
}

/// A path in `parent` named `name`, or `name` with the first free number
/// from 2 on, given the names `taken` that already exist in `parent`.
pub fn unique_child_path(parent: &str, name: &str, taken: &Vec<String>) -> (r: String)
    requires
        taken.len() < usize::MAX,
    ensures
        exists|n: Seq<char>, k: nat|
            is_first_free(n, name@, Seq::empty(), views(taken@), k) && r@ == join_path(parent@, n),
{
    let prefix = chars_of(name);
    let suffix: Vec<char> = Vec::new();
    let n = first_free_name(&prefix, &suffix, taken);
    let s = string_from_chars(&n);
    join(parent, s.as_str())
}

/// A path in `parent` named `base_name.ext`, or `base_name N.ext` with the
/// first free number from 2 on, given the names `taken` in `parent`.
pub fn unique_file_path(parent: &str, base_name: &str, ext: &str, taken: &Vec<String>) -> (r: String)
    requires
        taken.len() < usize::MAX,
    ensures
        exists|n: Seq<char>, k: nat|
            is_first_free(n, base_name@, seq!['.'] + ext@, views(taken@), k) && r@ == join_path(
                parent@,
                n,
            ),
{
    let prefix = chars_of(base_name);
    let mut suffix: Vec<char> = Vec::new();
    suffix.push('.');
    push_str(&mut suffix, ext);
    let n = first_free_name(&prefix, &suffix, taken);
    let s = string_from_chars(&n);
    join(parent, s.as_str())
}

/// The folder a copy of `src` goes to: its parent, or the root.
pub open spec fn copy_folder(src: Seq<char>) -> Seq<char> {
    match path_parent(src) {
        Some(p) => p,
        None => "/"@,
    }
}

/// The name the copies of `src` are numbered from, "<stem> copy", and the
/// ending that follows the number: nothing for folders, otherwise the
/// extension with its dot.
pub open spec fn copy_parts(src: Seq<char>, src_is_dir: bool) -> (Seq<char>, Seq<char>) {
    let file_name = match path_file_name(src) {
        Some(n) => n,
        None => "file"@,
    };
    if src_is_dir {
        (file_name + " copy"@, Seq::empty())
    } else {
        let stem = match path_file_stem(src) {
            Some(s) => s,
            None => file_name,
        };
        let suffix = match path_extension(src) {
            Some(e) => seq!['.'] + e,
            None => Seq::empty(),
        };
        (stem + " copy"@, suffix)
    }
}

/// The folder a copy of `src` goes to, whose names the copy must avoid.
pub fn duplicate_folder(src: &str) -> (r: String)
    ensures
        r@ == copy_folder(src@),
{
    match parent_of(src) {
        Some(p) => p,
        None => "/".to_owned(),
    }
}

/// Where a copy of `src` is made: "<stem> copy<.ext>", or "<stem> copy
/// N<.ext>" with the first free number from 2 on, next to `src`, given the
/// names `taken` that exist there.
pub fn duplicate_target(src: &str, src_is_dir: bool, taken: &Vec<String>) -> (r: String)
    requires
        taken.len() < usize::MAX,
    ensures
        exists|n: Seq<char>, k: nat|
            is_first_free(
                n,
                copy_parts(src@, src_is_dir).0,
                copy_parts(src@, src_is_dir).1,
                views(taken@),
                k,
            ) && r@ == join_path(copy_folder(src@), n),
{
    let parent = match parent_of(src) {
        Some(p) => p,
        None => String::from_str("/"),
    };
    let file_name = match file_name_of(src) {
        Some(n) => n,
        None => String::from_str("file"),
    };
    let mut prefix: Vec<char> = Vec::new();
    let mut suffix: Vec<char> = Vec::new();
    if src_is_dir {
        push_str(&mut prefix, file_name.as_str());
    } else {
        let stem = match file_stem_of(src) {
            Some(s) => s,
            None => file_name,
        };
        push_str(&mut prefix, stem.as_str());
        match extension_of(src) {
            Some(e) => {
                suffix.push('.');
                push_str(&mut suffix, e.as_str());
            },
            None => {},
        }
    }
    push_str(&mut prefix, " copy");
    assert(prefix@ =~= copy_parts(src@, src_is_dir).0);
    assert(suffix@ =~= copy_parts(src@, src_is_dir).1);
    let n = first_free_name(&prefix, &suffix, taken);
    let s = string_from_chars(&n);
    join(parent.as_str(), s.as_str())
}

} // verus!
