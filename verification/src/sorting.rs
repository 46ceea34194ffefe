use vstd::prelude::*;
use vstd::seq_lib::*;

use crate::file_entry::{kind_label_spec, FileEntry, FileKind};
use crate::text::{
    chars_of, compare_chars, contains_chars, contains_seq, eq_ignore_ascii_case,
    eq_ignore_ascii_case_chars, int_order, lemma_lex_order_antisym, lemma_lex_order_equal,
    lemma_lex_order_trans, lex_order, lowercase, starts_with_chars, to_lowercase, Order,
};

verus! {

broadcast use {vstd::seq_lib::group_seq_properties, vstd::multiset::group_multiset_axioms};

/// The column a listing is ordered by.
#[derive(Clone, Copy, Debug, PartialEq, Eq, Structural)]
pub enum SortColumn {
    Name,
    DateModified,
    Size,
    Kind,
}

/// The direction of a listing's order.
#[derive(Clone, Copy, Debug, PartialEq, Eq, Structural)]
pub enum SortDirection {
    Ascending,
    Descending,
}

/// How a sequence of entries is ordered: a folder listing by one of its
/// columns, or search results by relevance to a lowercased query.
pub enum Arrangement {
    Listing { column: SortColumn, direction: SortDirection },
    Relevance { query: Seq<char> },
}

/// An arrangement as the sort functions take it.
pub enum SortKey {
    Listing { column: SortColumn, direction: SortDirection },
    Relevance { query: Vec<char> },
}

impl View for SortKey {
    type V = Arrangement;

    open spec fn view(&self) -> Arrangement {
        match self {
            SortKey::Listing { column, direction } => Arrangement::Listing {
                column: *column,
                direction: *direction,
            },
            SortKey::Relevance { query } => Arrangement::Relevance { query: query@ },
        }
    }
}

// ---------------------------------------------------------------------------
// The orders
// ---------------------------------------------------------------------------

/// The name an entry is sorted by: its lowercased name.
pub open spec fn name_key(e: FileEntry) -> Seq<char> {
    lowercase(e.name@)
}

/// The time an entry is sorted by; entries without one sort as the epoch.
pub open spec fn time_key(e: FileEntry) -> int {
    match e.modified {
        Some(t) => t.instant(),
        None => 0,
    }
}

/// Folders before everything else.
pub open spec fn folders_first(a: FileEntry, b: FileEntry) -> Order {
    if a.is_directory() && !b.is_directory() {
        Order::Less
    } else if !a.is_directory() && b.is_directory() {
        Order::Greater
    } else {
        Order::Equal
    }
}

/// The ascending order of one column: names by their lowercase form, dates,
/// sizes then names, kind labels then names.
pub open spec fn column_order(a: FileEntry, b: FileEntry, column: SortColumn) -> Order {
    match column {
        SortColumn::Name => lex_order(name_key(a), name_key(b)),
        SortColumn::DateModified => int_order(time_key(a), time_key(b)),
        SortColumn::Size => int_order(a.size as int, b.size as int).tie_break(
            lex_order(name_key(a), name_key(b)),
        ),
        SortColumn::Kind => lex_order(kind_label_spec(a.kind), kind_label_spec(b.kind)).tie_break(
            lex_order(name_key(a), name_key(b)),
        ),
    }
}

/// The order of a listing: folders first, then the column in the direction.
pub open spec fn listing_order(
    a: FileEntry,
    b: FileEntry,
    column: SortColumn,
    direction: SortDirection,
) -> Order {
    folders_first(a, b).tie_break(
        match direction {
            SortDirection::Ascending => column_order(a, b, column),
            SortDirection::Descending => column_order(a, b, column).reversed(),
        },
    )
}

/// A search result is hidden when a component of its path starts with a dot.
pub open spec fn is_hidden_result(e: FileEntry) -> bool {
    contains_seq(e.path@, seq!['/', '.']) || (e.name@.len() > 0 && e.name@[0] == '.')
}

/// How well a result matches the lowercased query `q`: visible exact
/// matches, visible prefix matches, other visible results, hidden exact
/// matches, other hidden results.
pub open spec fn relevance_rank(e: FileEntry, q: Seq<char>) -> int {
    let hidden = is_hidden_result(e);
    let exact = eq_ignore_ascii_case(e.name@, q);
    let starts = q.is_prefix_of(lowercase(e.name@));
    if exact && !hidden {
        0
    } else if starts && !hidden {
        1
    } else if !hidden {
        2
    } else if exact {
        3
    } else {
        4
    }
}

/// Search results: by rank, then folders first, then by name.
pub open spec fn relevance_order(a: FileEntry, b: FileEntry, q: Seq<char>) -> Order {
    int_order(relevance_rank(a, q), relevance_rank(b, q)).tie_break(
        folders_first(a, b).tie_break(lex_order(a.name@, b.name@)),
    )
}

pub open spec fn order_of(key: Arrangement, a: FileEntry, b: FileEntry) -> Order {
    match key {
        Arrangement::Listing { column, direction } => listing_order(a, b, column, direction),
        Arrangement::Relevance { query } => relevance_order(a, b, query),
    }
}

/// Every entry is ordered at or before every later one.
pub open spec fn sorted_by(s: Seq<FileEntry>, key: Arrangement) -> bool {
    forall|i: int, j: int|
        0 <= i < j < s.len() ==> order_of(key, #[trigger] s[i], #[trigger] s[j]) != Order::Greater
}

pub open spec fn class_pred(key: Arrangement, z: FileEntry) -> spec_fn(FileEntry) -> bool {
    |y: FileEntry| order_of(key, z, y) == Order::Equal
}

/// The entries of `s` that the order ranks equal to `z`, in their order in `s`.
pub open spec fn class_of(s: Seq<FileEntry>, key: Arrangement, z: FileEntry) -> Seq<FileEntry> {
    s.filter(class_pred(key, z))
}

/// `r` is `s` sorted stably: ordered, the same entries, and entries that the
/// order ranks equal keep their relative order.
pub open spec fn stably_sorted(r: Seq<FileEntry>, s: Seq<FileEntry>, key: Arrangement) -> bool {
    &&& sorted_by(r, key)
    &&& r.to_multiset() == s.to_multiset()
    &&& forall|z: FileEntry| #[trigger] class_of(r, key, z) == class_of(s, key, z)
}

// ---------------------------------------------------------------------------
// The orders are total preorders
// ---------------------------------------------------------------------------

proof fn lemma_lex_facts(a: Seq<char>, b: Seq<char>, c: Seq<char>)
    ensures
        lex_order(b, a) == lex_order(a, b).reversed(),
        lex_order(c, b) == lex_order(b, c).reversed(),
        lex_order(c, a) == lex_order(a, c).reversed(),
        (lex_order(a, b) == Order::Equal) <==> a == b,
        (lex_order(b, c) == Order::Equal) <==> b == c,
        (lex_order(a, c) == Order::Equal) <==> a == c,
        lex_order(a, b) != Order::Greater && lex_order(b, c) != Order::Greater ==> lex_order(a, c)
            != Order::Greater,
        (lex_order(a, b) == Order::Less && lex_order(b, c) != Order::Greater) ==> lex_order(a, c)
            == Order::Less,
        (lex_order(a, b) != Order::Greater && lex_order(b, c) == Order::Less) ==> lex_order(a, c)
            == Order::Less,
        lex_order(c, b) != Order::Greater && lex_order(b, a) != Order::Greater ==> lex_order(c, a)
            != Order::Greater,
        (lex_order(c, b) == Order::Less && lex_order(b, a) != Order::Greater) ==> lex_order(c, a)
            == Order::Less,
        (lex_order(c, b) != Order::Greater && lex_order(b, a) == Order::Less) ==> lex_order(c, a)
            == Order::Less,
{
    lemma_lex_order_antisym(a, b);
    lemma_lex_order_antisym(b, c);
    lemma_lex_order_antisym(a, c);
    lemma_lex_order_equal(a, b);
    lemma_lex_order_equal(b, c);
    lemma_lex_order_equal(a, c);
    if lex_order(a, b) != Order::Greater && lex_order(b, c) != Order::Greater {
        lemma_lex_order_trans(a, b, c);
    }
    if lex_order(c, b) != Order::Greater && lex_order(b, a) != Order::Greater {
        lemma_lex_order_trans(c, b, a);
    }
}

/// Antisymmetry and transitivity of one order on the triple `a`, `b`, `c`,
/// given its six comparisons.
pub open spec fn preorder_on(ab: Order, ba: Order, bc: Order, cb: Order, ac: Order, ca: Order) -> bool {
    &&& ba == ab.reversed()
    &&& cb == bc.reversed()
    &&& ca == ac.reversed()
    &&& (ab != Order::Greater && bc != Order::Greater) ==> ac != Order::Greater
    &&& (ab == Order::Less && bc != Order::Greater) ==> ac == Order::Less
    &&& (ab != Order::Greater && bc == Order::Less) ==> ac == Order::Less
    &&& (ab == Order::Equal && bc == Order::Equal) ==> ac == Order::Equal
    &&& (cb != Order::Greater && ba != Order::Greater) ==> ca != Order::Greater
    &&& (cb == Order::Less && ba != Order::Greater) ==> ca == Order::Less
    &&& (cb != Order::Greater && ba == Order::Less) ==> ca == Order::Less
}

proof fn lemma_tie_break_preorder(
    ab: Order,
    ba: Order,
    bc: Order,
    cb: Order,
    ac: Order,
    ca: Order,
    ab2: Order,
    ba2: Order,
    bc2: Order,
    cb2: Order,
    ac2: Order,
    ca2: Order,
)
    requires
        preorder_on(ab, ba, bc, cb, ac, ca),
        preorder_on(ab2, ba2, bc2, cb2, ac2, ca2),
    ensures
        preorder_on(
            ab.tie_break(ab2),
            ba.tie_break(ba2),
            bc.tie_break(bc2),
            cb.tie_break(cb2),
            ac.tie_break(ac2),
            ca.tie_break(ca2),
        ),
{
}

proof fn lemma_reversed_preorder(ab: Order, ba: Order, bc: Order, cb: Order, ac: Order, ca: Order)
    requires
        preorder_on(ab, ba, bc, cb, ac, ca),
    ensures
        preorder_on(
            ab.reversed(),
            ba.reversed(),
            bc.reversed(),
            cb.reversed(),
            ac.reversed(),
            ca.reversed(),
        ),
{
}

proof fn lemma_lex_preorder(a: Seq<char>, b: Seq<char>, c: Seq<char>)
    ensures
        preorder_on(
            lex_order(a, b),
            lex_order(b, a),
            lex_order(b, c),
            lex_order(c, b),
            lex_order(a, c),
            lex_order(c, a),
        ),
{
    lemma_lex_facts(a, b, c);
}

proof fn lemma_int_preorder(a: int, b: int, c: int)
    ensures
        preorder_on(
            int_order(a, b),
            int_order(b, a),
            int_order(b, c),
            int_order(c, b),
            int_order(a, c),
            int_order(c, a),
        ),
{
}

proof fn lemma_folders_preorder(a: FileEntry, b: FileEntry, c: FileEntry)
    ensures
        preorder_on(
            folders_first(a, b),
            folders_first(b, a),
            folders_first(b, c),
            folders_first(c, b),
            folders_first(a, c),
            folders_first(c, a),
        ),
{
}

proof fn lemma_column_preorder(a: FileEntry, b: FileEntry, c: FileEntry, column: SortColumn)
    ensures
        preorder_on(
            column_order(a, b, column),
            column_order(b, a, column),
            column_order(b, c, column),
            column_order(c, b, column),
            column_order(a, c, column),
            column_order(c, a, column),
        ),
{
    lemma_lex_preorder(name_key(a), name_key(b), name_key(c));
    match column {
        SortColumn::Name => {},
        SortColumn::DateModified => {
            lemma_int_preorder(time_key(a), time_key(b), time_key(c));
        },
        SortColumn::Size => {
            let (x, y, z) = (a.size as int, b.size as int, c.size as int);
            lemma_int_preorder(x, y, z);
            lemma_tie_break_preorder(
                int_order(x, y),
                int_order(y, x),
                int_order(y, z),
                int_order(z, y),
                int_order(x, z),
                int_order(z, x),
                lex_order(name_key(a), name_key(b)),
                lex_order(name_key(b), name_key(a)),
                lex_order(name_key(b), name_key(c)),
                lex_order(name_key(c), name_key(b)),
                lex_order(name_key(a), name_key(c)),
                lex_order(name_key(c), name_key(a)),
            );
        },
        SortColumn::Kind => {
            let (x, y, z) = (kind_label_spec(a.kind), kind_label_spec(b.kind), kind_label_spec(c.kind));
            lemma_lex_preorder(x, y, z);
            lemma_tie_break_preorder(
                lex_order(x, y),
                lex_order(y, x),
                lex_order(y, z),
                lex_order(z, y),
                lex_order(x, z),
                lex_order(z, x),
                lex_order(name_key(a), name_key(b)),
                lex_order(name_key(b), name_key(a)),
                lex_order(name_key(b), name_key(c)),
                lex_order(name_key(c), name_key(b)),
                lex_order(name_key(a), name_key(c)),
                lex_order(name_key(c), name_key(a)),
            );
        },
    }
}

/// The order is antisymmetric and transitive (a total preorder).
pub proof fn lemma_order_props(key: Arrangement, a: FileEntry, b: FileEntry, c: FileEntry)
    ensures
        preorder_on(
            order_of(key, a, b),
            order_of(key, b, a),
            order_of(key, b, c),
            order_of(key, c, b),
            order_of(key, a, c),
            order_of(key, c, a),
        ),
{
    lemma_folders_preorder(a, b, c);
    match key {
        Arrangement::Listing { column, direction } => {
            lemma_column_preorder(a, b, c, column);
            let (ab, ba, bc, cb, ac, ca) = (
                column_order(a, b, column),
                column_order(b, a, column),
                column_order(b, c, column),
                column_order(c, b, column),
                column_order(a, c, column),
                column_order(c, a, column),
            );
            match direction {
                SortDirection::Ascending => {
                    lemma_tie_break_preorder(
                        folders_first(a, b),
                        folders_first(b, a),
                        folders_first(b, c),
                        folders_first(c, b),
                        folders_first(a, c),
                        folders_first(c, a),
                        ab,
                        ba,
                        bc,
                        cb,
                        ac,
                        ca,
                    );
                },
                SortDirection::Descending => {
                    lemma_reversed_preorder(ab, ba, bc, cb, ac, ca);
                    lemma_tie_break_preorder(
                        folders_first(a, b),
                        folders_first(b, a),
                        folders_first(b, c),
                        folders_first(c, b),
                        folders_first(a, c),
                        folders_first(c, a),
                        ab.reversed(),
                        ba.reversed(),
                        bc.reversed(),
                        cb.reversed(),
                        ac.reversed(),
                        ca.reversed(),
                    );
                },
            }
        },
        Arrangement::Relevance { query } => {
            let q = query;
            let (x, y, z) = (relevance_rank(a, q), relevance_rank(b, q), relevance_rank(c, q));
            lemma_int_preorder(x, y, z);
            lemma_lex_preorder(a.name@, b.name@, c.name@);
            lemma_tie_break_preorder(
                folders_first(a, b),
                folders_first(b, a),
                folders_first(b, c),
                folders_first(c, b),
                folders_first(a, c),
                folders_first(c, a),
                lex_order(a.name@, b.name@),
                lex_order(b.name@, a.name@),
                lex_order(b.name@, c.name@),
                lex_order(c.name@, b.name@),
                lex_order(a.name@, c.name@),
                lex_order(c.name@, a.name@),
            );
            lemma_tie_break_preorder(
                int_order(x, y),
                int_order(y, x),
                int_order(y, z),
                int_order(z, y),
                int_order(x, z),
                int_order(z, x),
                folders_first(a, b).tie_break(lex_order(a.name@, b.name@)),
                folders_first(b, a).tie_break(lex_order(b.name@, a.name@)),
                folders_first(b, c).tie_break(lex_order(b.name@, c.name@)),
                folders_first(c, b).tie_break(lex_order(c.name@, b.name@)),
                folders_first(a, c).tie_break(lex_order(a.name@, c.name@)),
                folders_first(c, a).tie_break(lex_order(c.name@, a.name@)),
            );
        },
    }
}

// ---------------------------------------------------------------------------
// Comparing entries
// ---------------------------------------------------------------------------

fn lowercase_name(e: &FileEntry) -> (r: Vec<char>)
    ensures
        r@ == name_key(*e),
{
    let l = to_lowercase(e.name.as_str());
    chars_of(l.as_str())
}

/// The name order of a listing, given the two names already lowercased:
/// character by character, a proper prefix first.
pub fn compare_name_keys(a_lower: &str, b_lower: &str) -> (r: Order)
    ensures
        r == lex_order(a_lower@, b_lower@),
{
    compare_chars(&chars_of(a_lower), &chars_of(b_lower))
}

/// Orders two entries by their lowercased names.
fn name_compare(a: &FileEntry, b: &FileEntry) -> (r: Order)
    ensures
        r == lex_order(name_key(*a), name_key(*b)),
{
    let la = to_lowercase(a.name.as_str());
    let lb = to_lowercase(b.name.as_str());
    compare_name_keys(la.as_str(), lb.as_str())
}

fn int_compare(a: i128, b: i128) -> (r: Order)
    ensures
        r == int_order(a as int, b as int),
{
    if a < b {
        Order::Less
    } else if a == b {
        Order::Equal
    } else {
        Order::Greater
    }
}

fn time_of(e: &FileEntry) -> (r: i128)
    ensures
        r == time_key(*e),
{
    match e.modified {
        Some(t) => t.instant_nanos(),
        None => 0,
    }
}

fn kind_label_chars(kind: FileKind) -> (r: Vec<char>)
    ensures
        r@ == kind_label_spec(kind),
{
    match kind {
        FileKind::Directory => chars_of("Folder"),
        FileKind::Symlink => chars_of("Alias"),
        FileKind::File => chars_of("Document"),
    }
}

fn folders_first_exec(a: &FileEntry, b: &FileEntry) -> (r: Order)
    ensures
        r == folders_first(*a, *b),
{
    let da = a.is_dir();
    let db = b.is_dir();
    if da && !db {
        Order::Less
    } else if !da && db {
        Order::Greater
    } else {
        Order::Equal
    }
}

fn column_compare(a: &FileEntry, b: &FileEntry, column: SortColumn) -> (r: Order)
    ensures
        r == column_order(*a, *b, column),
{
    match column {
        SortColumn::Name => name_compare(a, b),
        SortColumn::DateModified => int_compare(time_of(a), time_of(b)),
        SortColumn::Size => {
            let first = int_compare(a.size as i128, b.size as i128);
            first.then_with(name_compare(a, b))
        },
        SortColumn::Kind => {
            let first = compare_chars(&kind_label_chars(a.kind), &kind_label_chars(b.kind));
            first.then_with(name_compare(a, b))
        },
    }
}

fn is_hidden_result_exec(e: &FileEntry) -> (r: bool)
    ensures
        r == is_hidden_result(*e),
{
    let path = chars_of(e.path.as_str());
    let name = chars_of(e.name.as_str());
    let mut needle: Vec<char> = Vec::new();
    needle.push('/');
    needle.push('.');
    assert(needle@ =~= seq!['/', '.']);
    contains_chars(&path, &needle) || (name.len() > 0 && name[0] == '.')
}

fn relevance_rank_exec(e: &FileEntry, q: &Vec<char>) -> (r: i128)
    ensures
        r == relevance_rank(*e, q@),
{
    let hidden = is_hidden_result_exec(e);
    let name = chars_of(e.name.as_str());
    let exact = eq_ignore_ascii_case_chars(&name, q);
    let starts = starts_with_chars(&lowercase_name(e), q);
    if exact && !hidden {
        0
    } else if starts && !hidden {
        1
    } else if !hidden {
        2
    } else if exact {
        3
    } else {
        4
    }
}

/// Compares two entries in the order of `key`.
pub fn compare_entries(key: &SortKey, a: &FileEntry, b: &FileEntry) -> (r: Order)
    ensures
        r == order_of(key@, *a, *b),
{
    match key {
        SortKey::Listing { column, direction } => {
            let inner = column_compare(a, b, *column);
            let directed = match direction {
                SortDirection::Ascending => inner,
                SortDirection::Descending => inner.reverse(),
            };
            folders_first_exec(a, b).then_with(directed)
        },
        SortKey::Relevance { query } => {
            let by_rank = int_compare(relevance_rank_exec(a, query), relevance_rank_exec(b, query));
            let by_name = compare_chars(&chars_of(a.name.as_str()), &chars_of(b.name.as_str()));
            by_rank.then_with(folders_first_exec(a, b).then_with(by_name))
        },
    }
}

// ---------------------------------------------------------------------------
// Stable insertion sort
// ---------------------------------------------------------------------------

/// The position after every entry of the sorted `r` that is ordered at or
/// before `x`.
fn upper_bound(r: &Vec<FileEntry>, x: &FileEntry, key: &SortKey) -> (k: usize)
    requires
        sorted_by(r@, key@),
    ensures
        k <= r.len(),
        forall|j: int| 0 <= j < k ==> order_of(key@, #[trigger] r@[j], *x) != Order::Greater,
        forall|j: int| k <= j < r.len() ==> order_of(key@, #[trigger] r@[j], *x) == Order::Greater,
{
    let mut lo: usize = 0;
    let mut hi: usize = r.len();
    while lo < hi
        invariant
            sorted_by(r@, key@),
            lo <= hi <= r.len(),
            forall|j: int| 0 <= j < lo ==> order_of(key@, #[trigger] r@[j], *x) != Order::Greater,
            forall|j: int|
                hi <= j < r.len() ==> order_of(key@, #[trigger] r@[j], *x) == Order::Greater,
        decreases hi - lo,
    {
        let mid = lo + (hi - lo) / 2;
        if compare_entries(key, &r[mid], x) != Order::Greater {
            assert forall|j: int| 0 <= j < mid + 1 implies order_of(
                key@,
                #[trigger] r@[j],
                *x,
            ) != Order::Greater by {
                lemma_order_props(key@, r@[j], r@[mid as int], *x);
            }
            lo = mid + 1;
        } else {
            assert forall|j: int| mid <= j < r.len() implies order_of(
                key@,
                #[trigger] r@[j],
                *x,
            ) == Order::Greater by {
                lemma_order_props(key@, *x, r@[mid as int], r@[j]);
                lemma_order_props(key@, r@[mid as int], *x, r@[j]);
                lemma_order_props(key@, r@[j], *x, r@[mid as int]);
            }
            hi = mid;
        }
    }
    lo
}

/// Every entry is ordered equal to itself.
proof fn lemma_order_reflexive(key: Arrangement, x: FileEntry)
    ensures
        order_of(key, x, x) == Order::Equal,
{
    lemma_order_props(key, x, x, x);
}

/// The entries of `r1` and `r2` are ordered alike, as in a stable sort.
pub open spec fn sorted_twins(r1: Seq<FileEntry>, r2: Seq<FileEntry>, key: Arrangement) -> bool {
    &&& sorted_by(r1, key)
    &&& sorted_by(r2, key)
    &&& r1.to_multiset() == r2.to_multiset()
    &&& forall|z: FileEntry| #[trigger] class_of(r1, key, z) == class_of(r2, key, z)
}

/// Twins have the same length and start with the same entry.
proof fn lemma_twins_head(r1: Seq<FileEntry>, r2: Seq<FileEntry>, key: Arrangement)
    requires
        sorted_twins(r1, r2, key),
        r1.len() > 0,
    ensures
        r2.len() == r1.len(),
        r1[0] == r2[0],
{
    assert(r1.to_multiset().len() == r1.len());
    assert(r2.to_multiset().len() == r2.len());
    let x = r1[0];
    let y = r2[0];
    // `y` occurs in `r1` and `x` in `r2`, so each is ordered at or after the other.
    assert(r2.to_multiset().count(y) > 0);
    assert(r1.contains(y));
    let k = choose|k: int| 0 <= k < r1.len() && r1[k] == y;
    assert(r1.to_multiset().count(x) > 0);
    assert(r2.contains(x));
    let m = choose|m: int| 0 <= m < r2.len() && r2[m] == x;
    lemma_order_reflexive(key, x);
    lemma_order_reflexive(key, y);
    if k > 0 {
        assert(order_of(key, r1[0], r1[k]) != Order::Greater);
    }
    if m > 0 {
        assert(order_of(key, r2[0], r2[m]) != Order::Greater);
    }
    lemma_order_props(key, x, y, y);
    assert(order_of(key, x, y) == Order::Equal);
    // The class of `x` starts with `x` in `r1` and with `y` in `r2`.
    let p = class_pred(key, x);
    assert(r1 =~= seq![x] + r1.drop_first());
    assert(r2 =~= seq![y] + r2.drop_first());
    r1.drop_first().lemma_filter_prepend(x, p);
    r2.drop_first().lemma_filter_prepend(y, p);
    assert(class_of(r1, key, x) == class_of(r2, key, x));
    assert(class_of(r1, key, x)[0] == x);
    assert(class_of(r2, key, x)[0] == y);
}

/// Without their common first entry, twins are twins.
proof fn lemma_twins_tail(r1: Seq<FileEntry>, r2: Seq<FileEntry>, key: Arrangement)
    requires
        sorted_twins(r1, r2, key),
        r1.len() > 0,
        r2.len() == r1.len(),
        r1[0] == r2[0],
    ensures
        sorted_twins(r1.drop_first(), r2.drop_first(), key),
{
    let x = r1[0];
    let t1 = r1.drop_first();
    let t2 = r2.drop_first();
    assert(t1 =~= r1.remove(0));
    assert(t2 =~= r2.remove(0));
    assert(t1.to_multiset() == r1.to_multiset().remove(x));
    assert(t2.to_multiset() == r2.to_multiset().remove(x));
    assert forall|i: int, j: int| 0 <= i < j < t1.len() implies order_of(
        key,
        #[trigger] t1[i],
        #[trigger] t1[j],
    ) != Order::Greater by {
        assert(t1[i] == r1[i + 1] && t1[j] == r1[j + 1]);
    }
    assert forall|i: int, j: int| 0 <= i < j < t2.len() implies order_of(
        key,
        #[trigger] t2[i],
        #[trigger] t2[j],
    ) != Order::Greater by {
        assert(t2[i] == r2[i + 1] && t2[j] == r2[j + 1]);
    }
    assert(r1 =~= seq![x] + t1);
    assert(r2 =~= seq![x] + t2);
    assert forall|z: FileEntry| #[trigger] class_of(t1, key, z) == class_of(t2, key, z) by {
        let q = class_pred(key, z);
        t1.lemma_filter_prepend(x, q);
        t2.lemma_filter_prepend(x, q);
        assert(class_of(r1, key, z) == class_of(r2, key, z));
        if q(x) {
            assert(class_of(t1, key, z) =~= class_of(r1, key, z).drop_first());
            assert(class_of(t2, key, z) =~= class_of(r2, key, z).drop_first());
        } else {
            assert(class_of(r1, key, z) =~= class_of(t1, key, z));
            assert(class_of(r2, key, z) =~= class_of(t2, key, z));
        }
    }
}

/// Twins are equal.
proof fn lemma_sorted_twins_equal(r1: Seq<FileEntry>, r2: Seq<FileEntry>, key: Arrangement)
    requires
        sorted_twins(r1, r2, key),
    ensures
        r1 == r2,
    decreases r1.len(),
{
    if r1.len() == 0 {
        assert(r1.to_multiset().len() == r1.len());
        assert(r2.to_multiset().len() == r2.len());
        assert(r1 =~= r2);
    } else {
        lemma_twins_head(r1, r2, key);
        lemma_twins_tail(r1, r2, key);
        lemma_sorted_twins_equal(r1.drop_first(), r2.drop_first(), key);
        assert(r1 =~= seq![r1[0]] + r1.drop_first());
        assert(r2 =~= seq![r2[0]] + r2.drop_first());
    }
}

/// A stable sort has exactly one outcome: any two stable sortings of the
/// same entries by the same arrangement are equal.
pub proof fn lemma_stable_sort_unique(
    r1: Seq<FileEntry>,
    r2: Seq<FileEntry>,
    s: Seq<FileEntry>,
    key: Arrangement,
)
    requires
        stably_sorted(r1, s, key),
        stably_sorted(r2, s, key),
    ensures
        r1 == r2,
{
    assert forall|z: FileEntry| #[trigger] class_of(r1, key, z) == class_of(r2, key, z) by {
        assert(class_of(r1, key, z) == class_of(s, key, z));
        assert(class_of(r2, key, z) == class_of(s, key, z));
    }
    lemma_sorted_twins_equal(r1, r2, key);
}

/// Sorting entries that are already in order leaves them as they are.
pub proof fn lemma_sort_sorted_unchanged(r: Seq<FileEntry>, s: Seq<FileEntry>, key: Arrangement)
    requires
        stably_sorted(r, s, key),
        sorted_by(s, key),
    ensures
        r == s,
{
    assert(stably_sorted(s, s, key));
    lemma_stable_sort_unique(r, s, s, key);
}

/// In every folder listing, whatever its column and direction, folders come
/// before all other entries.
pub proof fn lemma_folders_lead(s: Seq<FileEntry>, column: SortColumn, direction: SortDirection)
    requires
        sorted_by(s, Arrangement::Listing { column, direction }),
    ensures
        forall|i: int, j: int|
            0 <= i < j < s.len() && (#[trigger] s[j]).is_directory() ==> (#[trigger] s[i]).is_directory(),
{
    assert forall|i: int, j: int|
        0 <= i < j < s.len() && (#[trigger] s[j]).is_directory() implies (#[trigger] s[i]).is_directory() by {
        let key = Arrangement::Listing { column, direction };
        assert(order_of(key, s[i], s[j]) != Order::Greater);
    }
}

proof fn lemma_filter_none(s: Seq<FileEntry>, pred: spec_fn(FileEntry) -> bool)
    requires
        forall|i: int| 0 <= i < s.len() ==> !pred(#[trigger] s[i]),
    ensures
        s.filter(pred) == Seq::<FileEntry>::empty(),
{
    assert(s.all(|y: FileEntry| !pred(y)));
    s.lemma_all_neg_filter_empty(pred);
    assert(s.filter(pred) =~= Seq::<FileEntry>::empty());
}

/// Inserting `x` at its upper bound keeps a stable sort stable.
proof fn lemma_insert_stable(
    r: Seq<FileEntry>,
    done: Seq<FileEntry>,
    x: FileEntry,
    k: int,
    key: Arrangement,
)
    requires
        stably_sorted(r, done, key),
        0 <= k <= r.len(),
        forall|j: int| 0 <= j < k ==> order_of(key, #[trigger] r[j], x) != Order::Greater,
        forall|j: int| k <= j < r.len() ==> order_of(key, #[trigger] r[j], x) == Order::Greater,
    ensures
        stably_sorted(r.insert(k, x), done.push(x), key),
{
    let r2 = r.insert(k, x);
    let pre = r.take(k);
    let post = r.skip(k);
    assert(r2 =~= pre + seq![x] + post);
    assert(r =~= pre + post);
    // ordered
    assert forall|i: int, j: int| 0 <= i < j < r2.len() implies order_of(
        key,
        #[trigger] r2[i],
        #[trigger] r2[j],
    ) != Order::Greater by {
        if j < k {
            assert(r2[i] == r[i] && r2[j] == r[j]);
        } else if j == k {
            assert(r2[i] == r[i]);
        } else if i == k {
            assert(r2[j] == r[j - 1]);
            lemma_order_props(key, r[j - 1], x, x);
        } else if i < k {
            assert(r2[i] == r[i] && r2[j] == r[j - 1]);
        } else {
            assert(r2[i] == r[i - 1] && r2[j] == r[j - 1]);
        }
    }
    // same entries
    vstd::seq_lib::lemma_multiset_commutative(pre + seq![x], post);
    vstd::seq_lib::lemma_multiset_commutative(pre, seq![x]);
    vstd::seq_lib::lemma_multiset_commutative(pre, post);
    assert(seq![x] =~= Seq::<FileEntry>::empty().push(x));
    done.to_multiset_ensures();
    Seq::<FileEntry>::empty().to_multiset_ensures();
    assert(r2.to_multiset() =~= done.push(x).to_multiset());
    // equal entries keep their order
    assert forall|z: FileEntry| #[trigger] class_of(r2, key, z) == class_of(done.push(x), key, z) by {
        let p = class_pred(key, z);
        assert(class_of(r2, key, z) == pre.filter(p) + seq![x].filter(p) + post.filter(p));
        assert(class_of(r, key, z) == pre.filter(p) + post.filter(p));
        assert(class_of(r, key, z) == class_of(done, key, z));
        done.lemma_filter_push(x, p);
        assert(seq![x].filter(p) == Seq::<FileEntry>::empty().push(x).filter(p));
        Seq::<FileEntry>::empty().lemma_filter_push(x, p);
        if p(x) {
            assert forall|i: int| 0 <= i < post.len() implies !p(#[trigger] post[i]) by {
                assert(post[i] == r[k + i]);
                lemma_order_props(key, z, x, post[i]);
                lemma_order_props(key, x, z, post[i]);
                lemma_order_props(key, post[i], x, z);
            }
            lemma_filter_none(post, p);
            assert(pre.filter(p) + post.filter(p) =~= pre.filter(p));
            assert(class_of(r2, key, z) =~= class_of(done.push(x), key, z));
        } else {
            assert(class_of(r2, key, z) =~= class_of(done.push(x), key, z));
        }
    }
}

/// Sorts `v` stably in the order of `key`.
pub fn stable_sort(v: Vec<FileEntry>, key: &SortKey) -> (r: Vec<FileEntry>)
    ensures
        stably_sorted(r@, v@, key@),
{
    let ghost orig = v@;
    let n = v.len();
    let mut v = v;
    // Reverse into a stack so that popping yields the entries in order.
    let mut stack: Vec<FileEntry> = Vec::new();
    while v.len() > 0
        invariant
            n == orig.len(),
            v.len() <= n,
            v@ == orig.take(v.len() as int),
            stack.len() == n - v.len(),
            forall|j: int| 0 <= j < stack.len() ==> #[trigger] stack@[j] == orig[n - 1 - j],
        decreases v.len(),
    {
        let e = v.pop().unwrap();
        stack.push(e);
        assert(v@ =~= orig.take(v.len() as int));
    }
    let mut result: Vec<FileEntry> = Vec::new();
    let mut i: usize = 0;
    assert(orig.take(0) =~= Seq::<FileEntry>::empty());
    assert forall|z: FileEntry| #[trigger] class_of(result@, key@, z) == class_of(
        orig.take(0),
        key@,
        z,
    ) by {
        assert(result@ =~= orig.take(0));
    }
    while i < n
        invariant
            n == orig.len(),
            i <= n,
            stack.len() == n - i,
            forall|j: int| 0 <= j < stack.len() ==> #[trigger] stack@[j] == orig[n - 1 - j],
            stably_sorted(result@, orig.take(i as int), key@),
        decreases n - i,
    {
        let x = stack.pop().unwrap();
        assert(x == orig[i as int]);
        let k = upper_bound(&result, &x, key);
        proof {
            lemma_insert_stable(result@, orig.take(i as int), x, k as int, key@);
            assert(orig.take(i as int).push(x) =~= orig.take(i + 1));
        }
        result.insert(k, x);
        i = i + 1;
    }
    assert(orig.take(n as int) =~= orig);
    result
}

// ---------------------------------------------------------------------------
// Listings and search results
// ---------------------------------------------------------------------------

/// Sorts a folder listing in place: folders first, then by `column` in
/// `direction`; entries that compare equal keep their order.
pub fn sort_entries(entries: &mut Vec<FileEntry>, column: SortColumn, direction: SortDirection)
    ensures
        stably_sorted(final(entries)@, old(entries)@, (Arrangement::Listing { column, direction })),
        forall|i: int, j: int|
            0 <= i < j < final(entries)@.len()
                && final(entries)@[i].is_directory() == final(entries)@[j].is_directory()
                && (column == SortColumn::Name || (column == SortColumn::Size
                && final(entries)@[i].size == final(entries)@[j].size)) ==> lower_names_in_order(
                #[trigger] final(entries)@[i],
                #[trigger] final(entries)@[j],
                direction,
            ),
{
    let mut taken: Vec<FileEntry> = Vec::new();
    std::mem::swap(entries, &mut taken);
    let key = SortKey::Listing { column, direction };
    let mut sorted = stable_sort(taken, &key);
    std::mem::swap(entries, &mut sorted);
    proof {
        let r = entries@;
        assert forall|i: int, j: int|
            0 <= i < j < r.len() && r[i].is_directory() == r[j].is_directory() && (column
                == SortColumn::Name || (column == SortColumn::Size && r[i].size == r[j].size)) implies lower_names_in_order(
            #[trigger] r[i],
            #[trigger] r[j],
            direction,
        ) by {
            lemma_sorted_name_ties(r, column, direction, i, j);
        }
    }
}

/// Whether a listing shows the entry: names starting with a dot are hidden
/// unless hidden files are shown.
pub open spec fn is_visible(e: FileEntry, show_hidden: bool) -> bool {
    show_hidden || !(e.name@.len() > 0 && e.name@[0] == '.')
}

pub open spec fn visible_pred(show_hidden: bool) -> spec_fn(FileEntry) -> bool {
    |e: FileEntry| is_visible(e, show_hidden)
}

fn is_visible_exec(e: &FileEntry, show_hidden: bool) -> (r: bool)
    ensures
        r == is_visible(*e, show_hidden),
{
    if show_hidden {
        return true;
    }
    let name = chars_of(e.name.as_str());
    !(name.len() > 0 && name[0] == '.')
}

/// The entries of `v` in reverse order, so that popping yields them in order.
fn reversed(v: Vec<FileEntry>) -> (r: Vec<FileEntry>)
    ensures
        r.len() == v.len(),
        forall|j: int| 0 <= j < r.len() ==> #[trigger] r@[j] == v@[v.len() - 1 - j],
{
    let ghost orig = v@;
    let n = v.len();
    let mut v = v;
    let mut stack: Vec<FileEntry> = Vec::new();
    while v.len() > 0
        invariant
            n == orig.len(),
            v.len() <= n,
            v@ == orig.take(v.len() as int),
            stack.len() == n - v.len(),
            forall|j: int| 0 <= j < stack.len() ==> #[trigger] stack@[j] == orig[n - 1 - j],
        decreases v.len(),
    {
        let e = v.pop().unwrap();
        stack.push(e);
        assert(v@ =~= orig.take(v.len() as int));
    }
    stack
}

/// What a folder shows of the entries read from it: the visible ones, in
/// the listing order of `column` and `direction`.
pub fn visible_entries(
    raw: Vec<FileEntry>,
    show_hidden: bool,
    column: SortColumn,
    direction: SortDirection,
) -> (r: Vec<FileEntry>)
    ensures
        stably_sorted(
            r@,
            raw@.filter(visible_pred(show_hidden)),
            (Arrangement::Listing { column, direction }),
        ),
{
    let ghost orig = raw@;
    let n = raw.len();
    let mut stack = reversed(raw);
    let mut kept: Vec<FileEntry> = Vec::new();
    let mut i: usize = 0;
    assert(orig.take(0) =~= Seq::<FileEntry>::empty());
    while i < n
        invariant
            n == orig.len(),
            i <= n,
            stack.len() == n - i,
            forall|j: int| 0 <= j < stack.len() ==> #[trigger] stack@[j] == orig[n - 1 - j],
            kept@ == orig.take(i as int).filter(visible_pred(show_hidden)),
        decreases n - i,
    {
        let e = stack.pop().unwrap();
        assert(e == orig[i as int]);
        proof {
            assert(orig.take(i + 1) =~= orig.take(i as int).push(e));
            orig.take(i as int).lemma_filter_push(e, visible_pred(show_hidden));
        }
        if is_visible_exec(&e, show_hidden) {
            kept.push(e);
        }
        i = i + 1;
    }
    assert(orig.take(n as int) =~= orig);
    let key = SortKey::Listing { column, direction };
    stable_sort(kept, &key)
}

/// The most results a search shows.
pub open spec fn max_search_results() -> nat {
    100
}

/// Search results ordered by relevance to the lowercased query: visible
/// exact matches, visible prefix matches, other visible results, hidden
/// exact matches, other hidden results; within a rank folders first, then by
/// name. At most the first 100 are kept.
pub fn rank_search_results(entries: Vec<FileEntry>, query_lower: &str) -> (r: Vec<FileEntry>)
    ensures
        exists|all: Seq<FileEntry>|
            #![trigger all.take(r@.len() as int)]
            {
                &&& stably_sorted(all, entries@, (Arrangement::Relevance { query: query_lower@ }))
                &&& r@ == all.take(r@.len() as int)
            },
        forall|i: int, j: int|
            0 <= i < j < r@.len() ==> tiers_in_order(#[trigger] r@[i], #[trigger] r@[j], query_lower@),
        r@.len() == if entries@.len() < max_search_results() {
            entries@.len()
        } else {
            max_search_results()
        },
{
    let key = SortKey::Relevance { query: chars_of(query_lower) };
    let ghost entries_view = entries@;
    let mut all = stable_sort(entries, &key);
    let ghost full = all@;
    proof {
        full.to_multiset_ensures();
        entries_view.to_multiset_ensures();
    }
    all.truncate(100);
    assert(all@ == full.take(all@.len() as int));
    proof {
        let r = all@;
        assert forall|i: int, j: int| 0 <= i < j < r.len() implies tiers_in_order(
            #[trigger] r[i],
            #[trigger] r[j],
            query_lower@,
        ) by {
            assert(r[i] == full[i] && r[j] == full[j]);
            lemma_ranked_tiers(full, query_lower@, i, j);
        }
    }
    all
}

// ---------------------------------------------------------------------------
// What the orders promise
// ---------------------------------------------------------------------------

/// Entries of the same kind of folder-ness compare, in every listing
/// column, as follows: by name, as their lowercased names do; by size,
/// smaller first, equal sizes as their lowercased names do; by kind, equal
/// kinds as their lowercased names do; by date, earlier first. Descending
/// is ascending with the two entries swapped. So letter case never decides
/// the order of two names that lowercase apart.
pub proof fn lemma_listing_ties(a: FileEntry, b: FileEntry, column: SortColumn)
    requires
        a.is_directory() == b.is_directory(),
    ensures
        column == SortColumn::Name ==> order_of(
            Arrangement::Listing { column, direction: SortDirection::Ascending },
            a,
            b,
        ) == lex_order(lowercase(a.name@), lowercase(b.name@)),
        column == SortColumn::Size && a.size == b.size ==> order_of(
            Arrangement::Listing { column, direction: SortDirection::Ascending },
            a,
            b,
        ) == lex_order(lowercase(a.name@), lowercase(b.name@)),
        column == SortColumn::Size && a.size < b.size ==> order_of(
            Arrangement::Listing { column, direction: SortDirection::Ascending },
            a,
            b,
        ) == Order::Less,
        column == SortColumn::Kind && a.kind == b.kind ==> order_of(
            Arrangement::Listing { column, direction: SortDirection::Ascending },
            a,
            b,
        ) == lex_order(lowercase(a.name@), lowercase(b.name@)),
        column == SortColumn::DateModified ==> (a.modified matches Some(t) && b.modified matches Some(u)
            && t.instant() < u.instant() ==> order_of(
            Arrangement::Listing { column, direction: SortDirection::Ascending },
            a,
            b,
        ) == Order::Less),
        order_of(Arrangement::Listing { column, direction: SortDirection::Descending }, a, b)
            == order_of(Arrangement::Listing { column, direction: SortDirection::Ascending }, b, a),
{
    reveal_strlit("Folder");
    reveal_strlit("Alias");
    reveal_strlit("Document");
    lemma_lex_order_antisym(lowercase(a.name@), lowercase(b.name@));
    lemma_lex_order_antisym(kind_label_spec(a.kind), kind_label_spec(b.kind));
    lemma_lex_order_equal(kind_label_spec(a.kind), kind_label_spec(b.kind));
}

/// `a` stands at or before `b` by lowercased name in `direction`.
pub open spec fn lower_names_in_order(a: FileEntry, b: FileEntry, direction: SortDirection) -> bool {
    match direction {
        SortDirection::Ascending => lex_order(lowercase(a.name@), lowercase(b.name@)) != Order::Greater,
        SortDirection::Descending => lex_order(lowercase(b.name@), lowercase(a.name@)) != Order::Greater,
    }
}

/// In a listing sorted by name, two entries of the same folder-ness stand
/// in the order of their lowercased names; sorted by size, so do two of the
/// same size (reversed when descending).
pub proof fn lemma_sorted_name_ties(r: Seq<FileEntry>, column: SortColumn, direction: SortDirection, i: int, j: int)
    requires
        sorted_by(r, Arrangement::Listing { column, direction }),
        0 <= i < j < r.len(),
        r[i].is_directory() == r[j].is_directory(),
        column == SortColumn::Name || (column == SortColumn::Size && r[i].size == r[j].size),
    ensures
        lower_names_in_order(r[i], r[j], direction),
{
    lemma_listing_ties(r[i], r[j], column);
    lemma_listing_ties(r[j], r[i], column);
    assert(order_of(Arrangement::Listing { column, direction }, r[i], r[j]) != Order::Greater);
}

/// A search result is visible when no component of its path and not its
/// name starts with a dot.
pub open spec fn visible_result(e: FileEntry) -> bool {
    !contains_seq(e.path@, seq!['/', '.']) && !(e.name@.len() > 0 && e.name@[0] == '.')
}

/// How search results rank against the lowercased query `q`: visible
/// results before hidden ones; among visible ones, names equal to the query
/// up to ASCII case first, then names whose lowercase form starts with the
/// query, then the rest; among hidden ones, names equal to the query first.
pub proof fn lemma_relevance_ranks(a: FileEntry, b: FileEntry, q: Seq<char>)
    ensures
        visible_result(a) && !visible_result(b) ==> order_of(Arrangement::Relevance { query: q }, a, b)
            == Order::Less,
        visible_result(a) && visible_result(b) && eq_ignore_ascii_case(a.name@, q)
            && !eq_ignore_ascii_case(b.name@, q) ==> order_of(Arrangement::Relevance { query: q }, a, b)
            == Order::Less,
        visible_result(a) && visible_result(b) && q.is_prefix_of(lowercase(a.name@))
            && !eq_ignore_ascii_case(b.name@, q) && !q.is_prefix_of(lowercase(b.name@)) ==> order_of(
            Arrangement::Relevance { query: q },
            a,
            b,
        ) == Order::Less,
        !visible_result(a) && !visible_result(b) && eq_ignore_ascii_case(a.name@, q)
            && !eq_ignore_ascii_case(b.name@, q) ==> order_of(Arrangement::Relevance { query: q }, a, b)
            == Order::Less,
        visible_result(a) && visible_result(b) && !eq_ignore_ascii_case(a.name@, q)
            && !eq_ignore_ascii_case(b.name@, q) && !q.is_prefix_of(lowercase(a.name@))
            && !q.is_prefix_of(lowercase(b.name@)) ==> {
            &&& a.is_directory() && !b.is_directory() ==> order_of(
                Arrangement::Relevance { query: q },
                a,
                b,
            ) == Order::Less
            &&& a.is_directory() == b.is_directory() ==> order_of(Arrangement::Relevance { query: q }, a, b)
                == lex_order(a.name@, b.name@)
        },
{
}

/// `a` may stand before `b` in results ranked for the lowercased query `q`:
/// a hidden result never precedes a visible one, and among visible ones a
/// result that is not an exact match never precedes an exact match, nor
/// one whose lowercased name does not start with the query one that does.
pub open spec fn tiers_in_order(a: FileEntry, b: FileEntry, q: Seq<char>) -> bool {
    &&& visible_result(b) ==> visible_result(a)
    &&& visible_result(a) && visible_result(b) && eq_ignore_ascii_case(b.name@, q) ==> eq_ignore_ascii_case(
        a.name@,
        q,
    )
    &&& visible_result(a) && visible_result(b) && (q.is_prefix_of(lowercase(b.name@))
        || eq_ignore_ascii_case(b.name@, q)) ==> (q.is_prefix_of(lowercase(a.name@))
        || eq_ignore_ascii_case(a.name@, q))
}

/// Results sorted by relevance stand in the order of their tiers.
pub proof fn lemma_ranked_tiers(s: Seq<FileEntry>, q: Seq<char>, i: int, j: int)
    requires
        sorted_by(s, Arrangement::Relevance { query: q }),
        0 <= i < j < s.len(),
    ensures
        tiers_in_order(s[i], s[j], q),
{
    let key = Arrangement::Relevance { query: q };
    lemma_relevance_ranks(s[j], s[i], q);
    lemma_order_props(key, s[i], s[j], s[j]);
    assert(order_of(key, s[i], s[j]) != Order::Greater);
}

} // verus!
