use vstd::prelude::*;
use vstd::string::*;

verus! {

// ---------------------------------------------------------------------------
// Decimal numerals
// ---------------------------------------------------------------------------

/// The character of a decimal digit `d` (`0 <= d < 10`).
pub open spec fn digit_char(d: nat) -> char {
    ((48 + d) as u8) as char
}

/// The decimal representation of `n`, most significant digit first, without
/// leading zeros ("0" for zero).
pub open spec fn decimal(n: nat) -> Seq<char>
    decreases n,
{
    if n < 10 {
        seq![digit_char(n)]
    } else {
        decimal(n / 10).push(digit_char(n % 10))
    }
}

pub proof fn lemma_decimal_nonempty(n: nat)
    ensures
        decimal(n).len() >= 1,
    decreases n,
{
    if n >= 10 {
        lemma_decimal_nonempty(n / 10);
    }
}

/// Every character of a numeral is a digit, in particular not a separator.
pub proof fn lemma_decimal_digits(n: nat)
    ensures
        forall|i: int| 0 <= i < decimal(n).len() ==> 48 <= (#[trigger] decimal(n)[i]) as u32 <= 57,
    decreases n,
{
    lemma_digit_char(n % 10);
    if n >= 10 {
        lemma_decimal_digits(n / 10);
        let p = decimal(n / 10);
        assert forall|i: int| 0 <= i < decimal(n).len() implies 48 <= (#[trigger] decimal(n)[i]) as u32 <= 57 by {
            if i < p.len() {
                assert(decimal(n)[i] == p[i]);
            }
        }
    }
}

pub proof fn lemma_digit_char(d: nat)
    requires
        d < 10,
    ensures
        digit_char(d) as u32 == 48 + d,
{
    assert(((48 + d) as u8) as nat == 48 + d);
}

/// Distinct numbers have distinct numerals.
pub proof fn lemma_decimal_injective(a: nat, b: nat)
    requires
        decimal(a) == decimal(b),
    ensures
        a == b,
    decreases a,
{
    lemma_digit_char(a % 10);
    lemma_digit_char(b % 10);
    if a < 10 && b < 10 {
        assert(decimal(a)[0] == digit_char(a));
        assert(decimal(b)[0] == digit_char(b));
        lemma_digit_char(a);
        lemma_digit_char(b);
    } else if a < 10 {
        lemma_decimal_nonempty(b / 10);
        assert(decimal(b).len() >= 2);
    } else if b < 10 {
        lemma_decimal_nonempty(a / 10);
        assert(decimal(a).len() >= 2);
    } else {
        let da = decimal(a);
        let db = decimal(b);
        assert(da.last() == db.last());
        assert(digit_char(a % 10) as u32 == digit_char(b % 10) as u32);
        assert(a % 10 == b % 10);
        assert(da.drop_last() =~= decimal(a / 10));
        assert(db.drop_last() =~= decimal(b / 10));
        lemma_decimal_injective(a / 10, b / 10);
        assert(a == (a / 10) * 10 + a % 10);
        assert(b == (b / 10) * 10 + b % 10);
    }
}

pub(crate) fn digit(d: u64) -> (c: char)
    requires
        d < 10,
    ensures
        c == digit_char(d as nat),
{
    ((48 + d) as u8) as char
}

/// Appends the decimal representation of `n` to `out`.
pub fn push_decimal(n: u64, out: &mut Vec<char>)
    ensures
        final(out)@ == old(out)@ + decimal(n as nat),
    decreases n,
{
    if n < 10 {
        out.push(digit(n));
        assert(old(out)@.push(digit_char(n as nat)) =~= old(out)@ + decimal(n as nat));
    } else {
        push_decimal(n / 10, out);
        out.push(digit(n % 10));
        assert(old(out)@ + decimal((n / 10) as nat) + seq![digit_char((n % 10) as nat)]
            =~= old(out)@ + decimal(n as nat));
    }
}

// ---------------------------------------------------------------------------
// Strings and character sequences
// ---------------------------------------------------------------------------

/// `String::push`: appends one character.
#[verifier::external_body]
fn string_push(s: &mut String, c: char)
    ensures
        final(s)@ == old(s)@.push(c),
{
    s.push(c);
}

/// The string whose characters are `v`.
pub fn string_from_chars(v: &Vec<char>) -> (s: String)
    ensures
        s@ == v@,
{
    let mut s = String::new();
    let mut i: usize = 0;
    while i < v.len()
        invariant
            i <= v.len(),
            s@ == v@.take(i as int),
        decreases v.len() - i,
    {
        string_push(&mut s, v[i]);
        assert(v@.take(i as int).push(v@[i as int]) =~= v@.take(i + 1));
        i = i + 1;
    }
    assert(v@.take(v.len() as int) =~= v@);
    s
}

/// The characters of `s`.
pub fn chars_of(s: &str) -> (v: Vec<char>)
    ensures
        v@ == s@,
{
    let n = s.unicode_len();
    let mut v: Vec<char> = Vec::new();
    let mut i: usize = 0;
    while i < n
        invariant
            n == s@.len(),
            i <= n,
            v@ == s@.take(i as int),
        decreases n - i,
    {
        v.push(s.get_char(i));
        assert(s@.take(i as int).push(s@[i as int]) =~= s@.take(i + 1));
        i = i + 1;
    }
    assert(s@.take(n as int) =~= s@);
    v
}

/// The decimal numeral of `n` as a string.
pub fn decimal_string(n: u64) -> (s: String)
    ensures
        s@ == decimal(n as nat),
{
    let mut v: Vec<char> = Vec::new();
    push_decimal(n, &mut v);
    assert(Seq::<char>::empty() + decimal(n as nat) =~= decimal(n as nat));
    string_from_chars(&v)
}

/// Appends the characters of `s` to `out`.
pub fn push_str(out: &mut Vec<char>, s: &str)
    ensures
        final(out)@ == old(out)@ + s@,
{
    let n = s.unicode_len();
    let mut i: usize = 0;
    while i < n
        invariant
            n == s@.len(),
            i <= n,
            out@ == old(out)@ + s@.take(i as int),
        decreases n - i,
    {
        out.push(s.get_char(i));
        assert(old(out)@ + s@.take(i as int) + seq![s@[i as int]] =~= old(out)@ + s@.take(i + 1));
        i = i + 1;
    }
    assert(s@.take(n as int) =~= s@);
}

/// Appends the characters of `src` to `out`.
pub fn push_all(out: &mut Vec<char>, src: &Vec<char>)
    ensures
        final(out)@ == old(out)@ + src@,
{
    let mut i: usize = 0;
    while i < src.len()
        invariant
            i <= src.len(),
            out@ == old(out)@ + src@.take(i as int),
        decreases src.len() - i,
    {
        out.push(src[i]);
        assert(old(out)@ + src@.take(i as int) + seq![src@[i as int]] =~= old(out)@ + src@.take(
            i + 1,
        ));
        i = i + 1;
    }
    assert(src@.take(src.len() as int) =~= src@);
}

// ---------------------------------------------------------------------------
// Unicode lowercasing (std)
// ---------------------------------------------------------------------------

/// What `str::to_lowercase` returns for a string with these characters.
pub uninterp spec fn lowercase(s: Seq<char>) -> Seq<char>;

/// `str::to_lowercase`; Unicode lowercasing is a function of the string alone,
/// named `lowercase` here; its tables are not restated.
#[verifier::external_body]
pub(crate) fn to_lowercase(s: &str) -> (r: String)
    ensures
        r@ == lowercase(s@),
{
    s.to_lowercase()
}

// ---------------------------------------------------------------------------
// Three-way comparison and lexicographic order
// ---------------------------------------------------------------------------

/// The outcome of a three-way comparison.
#[derive(Clone, Copy, Debug, PartialEq, Eq, Structural)]
pub enum Order {
    Less,
    Equal,
    Greater,
}

impl Order {
    pub open spec fn reversed(self) -> Order {
        match self {
            Order::Less => Order::Greater,
            Order::Equal => Order::Equal,
            Order::Greater => Order::Less,
        }
    }

    /// `self`, or `other` where `self` is `Equal`.
    pub open spec fn tie_break(self, other: Order) -> Order {
        match self {
            Order::Equal => other,
            _ => self,
        }
    }

    pub fn reverse(self) -> (r: Order)
        ensures
            r == self.reversed(),
    {
        match self {
            Order::Less => Order::Greater,
            Order::Equal => Order::Equal,
            Order::Greater => Order::Less,
        }
    }

    pub fn then_with(self, other: Order) -> (r: Order)
        ensures
            r == self.tie_break(other),
    {
        match self {
            Order::Equal => other,
            _ => self,
        }
    }
}

/// Comparison of two integers.
pub open spec fn int_order(a: int, b: int) -> Order {
    if a < b {
        Order::Less
    } else if a == b {
        Order::Equal
    } else {
        Order::Greater
    }
}

/// Lexicographic comparison by code point; for strings this is the order of
/// `str::cmp` (UTF-8 byte order agrees with code point order).
pub open spec fn lex_order(a: Seq<char>, b: Seq<char>) -> Order
    decreases a.len(),
{
    if a.len() == 0 {
        if b.len() == 0 {
            Order::Equal
        } else {
            Order::Less
        }
    } else if b.len() == 0 {
        Order::Greater
    } else if a[0] < b[0] {
        Order::Less
    } else if a[0] > b[0] {
        Order::Greater
    } else {
        lex_order(a.drop_first(), b.drop_first())
    }
}

pub proof fn lemma_lex_order_equal(a: Seq<char>, b: Seq<char>)
    ensures
        (lex_order(a, b) == Order::Equal) <==> a == b,
    decreases a.len(),
{
    if a.len() > 0 && b.len() > 0 && a[0] == b[0] {
        lemma_lex_order_equal(a.drop_first(), b.drop_first());
        if a.drop_first() == b.drop_first() {
            assert forall|i: int| 0 <= i < a.len() implies a[i] == b[i] by {
                if i > 0 {
                    assert(a[i] == a.drop_first()[i - 1]);
                    assert(b[i] == b.drop_first()[i - 1]);
                }
            }
            assert(a =~= b);
        }
        if a == b {
            assert(a.drop_first() =~= b.drop_first());
        }
    } else if a.len() > 0 && b.len() > 0 {
        assert(a[0] != b[0]);
    } else if a.len() == 0 && b.len() == 0 {
        assert(a =~= b);
    }
}

pub proof fn lemma_lex_order_antisym(a: Seq<char>, b: Seq<char>)
    ensures
        lex_order(b, a) == lex_order(a, b).reversed(),
    decreases a.len(),
{
    if a.len() > 0 && b.len() > 0 && a[0] == b[0] {
        lemma_lex_order_antisym(a.drop_first(), b.drop_first());
    }
}

pub proof fn lemma_lex_order_trans(a: Seq<char>, b: Seq<char>, c: Seq<char>)
    requires
        lex_order(a, b) != Order::Greater,
        lex_order(b, c) != Order::Greater,
    ensures
        lex_order(a, c) != Order::Greater,
        (lex_order(a, b) == Order::Less || lex_order(b, c) == Order::Less) ==> lex_order(a, c)
            == Order::Less,
    decreases a.len(),
{
    if a.len() > 0 && b.len() > 0 && c.len() > 0 {
        if a[0] == b[0] && b[0] == c[0] {
            lemma_lex_order_trans(a.drop_first(), b.drop_first(), c.drop_first());
        }
    }
}

/// Lexicographic comparison of two character vectors.
pub fn compare_chars(a: &Vec<char>, b: &Vec<char>) -> (r: Order)
    ensures
        r == lex_order(a@, b@),
{
    let mut i: usize = 0;
    assert(a@.skip(0) =~= a@);
    assert(b@.skip(0) =~= b@);
    while i < a.len() && i < b.len()
        invariant
            i <= a.len(),
            i <= b.len(),
            lex_order(a@, b@) == lex_order(a@.skip(i as int), b@.skip(i as int)),
        decreases a.len() - i,
    {
        let x = a[i];
        let y = b[i];
        assert(a@.skip(i as int)[0] == a@[i as int]);
        assert(b@.skip(i as int)[0] == b@[i as int]);
        if x < y {
            return Order::Less;
        } else if x > y {
            return Order::Greater;
        }
        assert(a@.skip(i as int).drop_first() =~= a@.skip(i + 1));
        assert(b@.skip(i as int).drop_first() =~= b@.skip(i + 1));
        i = i + 1;
    }
    if i < b.len() {
        Order::Less
    } else if i < a.len() {
        Order::Greater
    } else {
        Order::Equal
    }
}

/// Whether two character vectors hold the same characters.
pub fn chars_equal(a: &Vec<char>, b: &Vec<char>) -> (r: bool)
    ensures
        r == (a@ == b@),
{
    proof {
        lemma_lex_order_equal(a@, b@);
    }
    compare_chars(a, b) == Order::Equal
}

// ---------------------------------------------------------------------------
// Searching inside character sequences
// ---------------------------------------------------------------------------

/// `needle` occurs in `hay` at offset `i`.
pub open spec fn occurs_at(hay: Seq<char>, needle: Seq<char>, i: int) -> bool {
    0 <= i && i + needle.len() <= hay.len() && hay.subrange(i, i + needle.len()) == needle
}

/// `needle` occurs somewhere in `hay` (`str::contains`).
pub open spec fn contains_seq(hay: Seq<char>, needle: Seq<char>) -> bool {
    exists|i: int| occurs_at(hay, needle, i)
}

fn occurs_at_exec(hay: &Vec<char>, needle: &Vec<char>, i: usize) -> (r: bool)
    requires
        i + needle.len() <= hay.len(),
    ensures
        r == occurs_at(hay@, needle@, i as int),
{
    let mut j: usize = 0;
    while j < needle.len()
        invariant
            i + needle.len() <= hay.len(),
            j <= needle.len(),
            forall|k: int| 0 <= k < j ==> hay@[i + k] == needle@[k],
        decreases needle.len() - j,
    {
        if hay[i + j] != needle[j] {
            assert(hay@.subrange(i as int, i + needle.len())[j as int] != needle@[j as int]);
            return false;
        }
        j = j + 1;
    }
    assert(hay@.subrange(i as int, i + needle.len()) =~= needle@);
    true
}

/// Whether `needle` occurs in `hay`.
pub fn contains_chars(hay: &Vec<char>, needle: &Vec<char>) -> (r: bool)
    ensures
        r == contains_seq(hay@, needle@),
{
    if needle.len() > hay.len() {
        return false;
    }
    if needle.len() == 0 {
        assert(hay@.subrange(0, 0) =~= needle@);
        assert(occurs_at(hay@, needle@, 0));
        return true;
    }
    let mut i: usize = 0;
    while i <= hay.len() - needle.len()
        invariant
            1 <= needle.len() <= hay.len(),
            i <= hay.len() - needle.len() + 1,
            forall|k: int| 0 <= k < i ==> !occurs_at(hay@, needle@, k),
        decreases hay.len() + 1 - i,
    {
        if occurs_at_exec(hay, needle, i) {
            return true;
        }
        i = i + 1;
    }
    false
}

/// Whether `s` starts with `prefix`.
pub fn starts_with_chars(s: &Vec<char>, prefix: &Vec<char>) -> (r: bool)
    ensures
        r == prefix@.is_prefix_of(s@),
{
    if prefix.len() > s.len() {
        return false;
    }
    let r = occurs_at_exec(s, prefix, 0);
    assert(r ==> s@.subrange(0, prefix@.len() as int) == prefix@);
    r
}

/// Whether `s` ends with `suffix`.
pub fn ends_with_chars(s: &Vec<char>, suffix: &Vec<char>) -> (r: bool)
    ensures
        r == suffix@.is_suffix_of(s@),
{
    if suffix.len() > s.len() {
        return false;
    }
    let r = occurs_at_exec(s, suffix, s.len() - suffix.len());
    r
}

// ---------------------------------------------------------------------------
// ASCII case folding
// ---------------------------------------------------------------------------

pub open spec fn ascii_lower(c: char) -> char {
    if 'A' <= c <= 'Z' {
        (((c as u32) + 32) as u8) as char
    } else {
        c
    }
}

/// `str::eq_ignore_ascii_case`: equal once ASCII letters are folded.
pub open spec fn eq_ignore_ascii_case(a: Seq<char>, b: Seq<char>) -> bool {
    a.len() == b.len() && forall|i: int| 0 <= i < a.len() ==> ascii_lower(a[i]) == ascii_lower(b[i])
}

fn ascii_lower_exec(c: char) -> (r: char)
    ensures
        r == ascii_lower(c),
{
    if 'A' <= c && c <= 'Z' {
        (((c as u32) + 32) as u8) as char
    } else {
        c
    }
}

pub fn eq_ignore_ascii_case_chars(a: &Vec<char>, b: &Vec<char>) -> (r: bool)
    ensures
        r == eq_ignore_ascii_case(a@, b@),
{
    if a.len() != b.len() {
        return false;
    }
    let mut i: usize = 0;
    while i < a.len()
        invariant
            a.len() == b.len(),
            i <= a.len(),
            forall|k: int| 0 <= k < i ==> ascii_lower(a@[k]) == ascii_lower(b@[k]),
        decreases a.len() - i,
    {
        if ascii_lower_exec(a[i]) != ascii_lower_exec(b[i]) {
            return false;
        }
        i = i + 1;
    }
    true
}

// ---------------------------------------------------------------------------
// Whitespace trimming
// ---------------------------------------------------------------------------

/// `char::is_whitespace`: the Unicode `White_Space` property.
pub open spec fn is_white_space(c: char) -> bool {
    let u = c as u32;
    (9 <= u <= 13) || u == 32 || u == 0x85 || u == 0xA0 || u == 0x1680 || (0x2000 <= u
        <= 0x200A) || u == 0x2028 || u == 0x2029 || u == 0x202F || u == 0x205F || u == 0x3000
}

fn is_white_space_exec(c: char) -> (r: bool)
    ensures
        r == is_white_space(c),
{
    let u = c as u32;
    (9 <= u && u <= 13) || u == 32 || u == 0x85 || u == 0xA0 || u == 0x1680 || (0x2000 <= u && u
        <= 0x200A) || u == 0x2028 || u == 0x2029 || u == 0x202F || u == 0x205F || u == 0x3000
}

/// `str::trim`: `s` without leading and trailing whitespace.
#[verifier::opaque]
pub open spec fn trimmed(s: Seq<char>) -> Seq<char> {
    if forall|i: int| 0 <= i < s.len() ==> is_white_space(#[trigger] s[i]) {
        Seq::empty()
    } else {
        let lo = choose|lo: int|
            0 <= lo < s.len() && !is_white_space(s[lo]) && forall|k: int|
                0 <= k < lo ==> is_white_space(#[trigger] s[k]);
        let hi = choose|hi: int|
            0 <= hi < s.len() && !is_white_space(s[hi]) && forall|k: int|
                hi < k < s.len() ==> is_white_space(#[trigger] s[k]);
        s.subrange(lo, hi + 1)
    }
}

/// `str::trim` on a string.
pub fn trim(s: &str) -> (r: Vec<char>)
    ensures
        r@ == trimmed(s@),
{
    let v = chars_of(s);
    let n = v.len();
    let mut lo: usize = 0;
    while lo < n && is_white_space_exec(v[lo])
        invariant
            n == v.len(),
            lo <= n,
            forall|k: int| 0 <= k < lo ==> is_white_space(#[trigger] v@[k]),
        decreases n - lo,
    {
        lo = lo + 1;
    }
    if lo == n {
        proof {
            reveal(trimmed);
        }
        return Vec::new();
    }
    let mut hi: usize = n - 1;
    while hi > lo && is_white_space_exec(v[hi])
        invariant
            n == v.len(),
            lo < n,
            !is_white_space(v@[lo as int]),
            lo <= hi < n,
            forall|k: int| hi < k < n ==> is_white_space(#[trigger] v@[k]),
        decreases hi,
    {
        hi = hi - 1;
    }
    proof {
        reveal(trimmed);
        let s = v@;
        let l = choose|l: int|
            0 <= l < s.len() && !is_white_space(s[l]) && forall|k: int|
                0 <= k < l ==> is_white_space(#[trigger] s[k]);
        let h = choose|h: int|
            0 <= h < s.len() && !is_white_space(s[h]) && forall|k: int|
                h < k < s.len() ==> is_white_space(#[trigger] s[k]);
        assert(!is_white_space(s[lo as int]));
        assert(0 <= l < s.len() && !is_white_space(s[l]) && forall|k: int|
            0 <= k < l ==> is_white_space(#[trigger] s[k]));
        assert(0 <= h < s.len() && !is_white_space(s[h]) && forall|k: int|
            h < k < s.len() ==> is_white_space(#[trigger] s[k]));
        if l < lo {
            assert(is_white_space(s[l]));
        }
        if lo < l {
            assert(is_white_space(s[lo as int]));
        }
        assert(!is_white_space(s[hi as int]));
        if h < hi {
            assert(is_white_space(s[hi as int]));
        }
        if hi < h {
            assert(is_white_space(s[h]));
        }
    }
    let mut r: Vec<char> = Vec::new();
    let mut i: usize = lo;
    while i <= hi
        invariant
            n == v.len(),
            lo <= hi < n,
            lo <= i <= hi + 1,
            r@ == v@.subrange(lo as int, i as int),
        decreases hi + 1 - i,
    {
        r.push(v[i]);
        assert(v@.subrange(lo as int, i as int).push(v@[i as int]) =~= v@.subrange(
            lo as int,
            i + 1,
        ));
        i = i + 1;
    }
    r
}

// ---------------------------------------------------------------------------
// Thousands separators
// ---------------------------------------------------------------------------

/// `digits` with a comma between every group of three, counted from the right.
pub open spec fn group_thousands(digits: Seq<char>) -> Seq<char>
    decreases digits.len(),
{
    if digits.len() <= 3 {
        digits
    } else {
        group_thousands(digits.take(digits.len() - 3)) + seq![','] + digits.skip(
            digits.len() - 3,
        )
    }
}

/// Characters other than the thousands separator.
pub open spec fn not_comma() -> spec_fn(char) -> bool {
    |c: char| c != ','
}

/// Filtering out commas leaves a comma-free sequence as it is.
proof fn lemma_no_comma_filter(s: Seq<char>)
    requires
        forall|i: int| 0 <= i < s.len() ==> s[i] != ',',
    ensures
        s.filter(not_comma()) == s,
    decreases s.len(),
{
    if s.len() > 0 {
        lemma_no_comma_filter(s.drop_last());
        s.drop_last().lemma_filter_push(s.last(), not_comma());
        assert(s.drop_last().push(s.last()) =~= s);
    } else {
        assert(s.filter(not_comma()) =~= s) by {
            reveal(Seq::filter);
        }
    }
}

/// Grouping only inserts separators: without its commas, a grouped run of
/// comma-free digits is the run itself.
pub proof fn lemma_grouping_keeps_digits(digits: Seq<char>)
    requires
        forall|i: int| 0 <= i < digits.len() ==> digits[i] != ',',
    ensures
        group_thousands(digits).filter(not_comma()) == digits,
    decreases digits.len(),
{
    if digits.len() <= 3 {
        lemma_no_comma_filter(digits);
    } else {
        let head = digits.take(digits.len() - 3);
        let tail = digits.skip(digits.len() - 3);
        lemma_grouping_keeps_digits(head);
        lemma_no_comma_filter(tail);
        let g = group_thousands(head);
        Seq::filter_distributes_over_add(g + seq![','], tail, not_comma());
        Seq::filter_distributes_over_add(g, seq![','], not_comma());
        Seq::<char>::empty().lemma_filter_push(',', not_comma());
        assert(seq![','] == Seq::<char>::empty().push(','));
        assert(Seq::<char>::empty().filter(not_comma()) =~= Seq::<char>::empty()) by {
            reveal(Seq::filter);
        }
        assert(head + tail =~= digits);
    }
}

/// The exact byte count shown with separators reads, without its commas,
/// as the plain decimal number.
pub proof fn lemma_exact_bytes_digits(n: nat)
    ensures
        group_thousands(decimal(n)).filter(not_comma()) == decimal(n),
{
    lemma_decimal_digits(n);
    assert forall|i: int| 0 <= i < decimal(n).len() implies decimal(n)[i] != ',' by {
        assert(48 <= (decimal(n)[i]) as u32 <= 57);
    }
    lemma_grouping_keeps_digits(decimal(n));
}

fn push_grouped(digits: &Vec<char>, end: usize, out: &mut Vec<char>)
    requires
        end <= digits.len(),
    ensures
        final(out)@ == old(out)@ + group_thousands(digits@.take(end as int)),
    decreases end,
{
    let ghost d = digits@.take(end as int);
    if end <= 3 {
        let mut i: usize = 0;
        while i < end
            invariant
                end <= 3,
                end <= digits.len(),
                i <= end,
                out@ == old(out)@ + digits@.take(i as int),
            decreases end - i,
        {
            out.push(digits[i]);
            assert(old(out)@ + digits@.take(i as int) + seq![digits@[i as int]] =~= old(out)@
                + digits@.take(i + 1));
            i = i + 1;
        }
    } else {
        push_grouped(digits, end - 3, out);
        assert(d.take(d.len() - 3) =~= digits@.take(end - 3));
        out.push(',');
        out.push(digits[end - 3]);
        out.push(digits[end - 2]);
        out.push(digits[end - 1]);
        assert(d.skip(d.len() - 3) =~= seq![
            digits@[end - 3],
            digits@[end - 2],
            digits@[end - 1],
        ]);
        assert(old(out)@ + group_thousands(digits@.take(end - 3)) + seq![','] + d.skip(
            d.len() - 3,
        ) =~= old(out)@ + group_thousands(d));
    }
}

/// The byte count with thousands separators, e.g. `1234567` as "1,234,567".
pub fn format_exact_bytes(bytes: u64) -> (s: String)
    ensures
        s@ == group_thousands(decimal(bytes as nat)),
{
    let mut digits: Vec<char> = Vec::new();
    push_decimal(bytes, &mut digits);
    assert(digits@ =~= decimal(bytes as nat));
    let mut out: Vec<char> = Vec::new();
    push_grouped(&digits, digits.len(), &mut out);
    assert(digits@.take(digits.len() as int) =~= digits@);
    assert(out@ =~= group_thousands(decimal(bytes as nat)));
    string_from_chars(&out)
}

// ---------------------------------------------------------------------------
// Lines
// ---------------------------------------------------------------------------

/// The position of the first `c` in `s`, or its length.
pub open spec fn find_char(s: Seq<char>, c: char) -> nat
    decreases s.len(),
{
    if s.len() == 0 {
        0
    } else if s[0] == c {
        0
    } else {
        1 + find_char(s.drop_first(), c)
    }
}

pub proof fn lemma_find_char_bound(s: Seq<char>, c: char)
    ensures
        find_char(s, c) <= s.len(),
        find_char(s, c) < s.len() ==> s[find_char(s, c) as int] == c,
    decreases s.len(),
{
    if s.len() > 0 && s[0] != c {
        lemma_find_char_bound(s.drop_first(), c);
    }
}

/// A line without the carriage return of a "\r\n" ending.
pub open spec fn strip_cr(l: Seq<char>) -> Seq<char> {
    if l.len() > 0 && l.last() == '\r' {
        l.drop_last()
    } else {
        l
    }
}

/// `str::lines`: the lines of `s`, split at "\n" or "\r\n"; a final line
/// ending adds no empty line.
pub open spec fn lines_of(s: Seq<char>) -> Seq<Seq<char>>
    decreases s.len(),
{
    if s.len() == 0 {
        Seq::empty()
    } else {
        let i = find_char(s, '\n');
        if i >= s.len() {
            seq![s]
        } else {
            seq![strip_cr(s.take(i as int))] + lines_of(s.skip(i as int + 1))
        }
    }
}

/// The position of the first `c` in `v` at or after `start`, or its length.
pub fn find_from(v: &Vec<char>, start: usize, c: char) -> (r: usize)
    requires
        start <= v.len(),
    ensures
        r == start + find_char(v@.skip(start as int), c),
{
    let mut j = start;
    while j < v.len() && v[j] != c
        invariant
            start <= j <= v.len(),
            find_char(v@.skip(start as int), c) == (j - start) + find_char(v@.skip(j as int), c),
        decreases v.len() - j,
    {
        assert(v@.skip(j as int).drop_first() =~= v@.skip(j + 1));
        j = j + 1;
    }
    j
}

/// The characters of `v` from `lo` up to `hi`.
pub fn sub_chars(v: &Vec<char>, lo: usize, hi: usize) -> (r: Vec<char>)
    requires
        lo <= hi <= v.len(),
    ensures
        r@ == v@.subrange(lo as int, hi as int),
{
    let mut r: Vec<char> = Vec::new();
    let mut i = lo;
    while i < hi
        invariant
            lo <= i <= hi <= v.len(),
            r@ == v@.subrange(lo as int, i as int),
        decreases hi - i,
    {
        r.push(v[i]);
        assert(v@.subrange(lo as int, i as int).push(v@[i as int]) =~= v@.subrange(lo as int, i + 1));
        i = i + 1;
    }
    r
}

/// The lines of `v`, as `str::lines` splits them.
pub fn split_lines(v: &Vec<char>) -> (r: Vec<Vec<char>>)
    ensures
        r@.map_values(|l: Vec<char>| l@) == lines_of(v@),
{
    let mut out: Vec<Vec<char>> = Vec::new();
    let mut start: usize = 0;
    assert(v@.skip(0) =~= v@);
    while start < v.len()
        invariant
            start <= v.len(),
            lines_of(v@) == out@.map_values(|l: Vec<char>| l@) + lines_of(v@.skip(start as int)),
        decreases v.len() - start,
    {
        let ghost rest = v@.skip(start as int);
        let i = find_from(v, start, '\n');
        proof {
            lemma_find_char_bound(rest, '\n');
        }
        let ghost before = out@.map_values(|l: Vec<char>| l@);
        if i >= v.len() {
            let line = sub_chars(v, start, v.len());
            assert(line@ =~= rest);
            out.push(line);
            assert(out@.map_values(|l: Vec<char>| l@) =~= before.push(rest));
            assert(v@.skip(v.len() as int) =~= Seq::<char>::empty());
            assert(lines_of(rest) == seq![rest]);
            assert(before + seq![rest] =~= before.push(rest));
            start = v.len();
        } else {
            let mut end = i;
            if end > start && v[end - 1] == '\r' {
                end = end - 1;
            }
            let line = sub_chars(v, start, end);
            let ghost piece = rest.take((i - start) as int);
            assert(line@ =~= strip_cr(piece));
            out.push(line);
            assert(rest.skip((i - start) + 1) =~= v@.skip(i + 1));
            assert(out@.map_values(|l: Vec<char>| l@) =~= before.push(strip_cr(piece)));
            assert(lines_of(rest) == seq![strip_cr(piece)] + lines_of(v@.skip(i + 1)));
            assert(before + (seq![strip_cr(piece)] + lines_of(v@.skip(i + 1))) =~= before.push(
                strip_cr(piece),
            ) + lines_of(v@.skip(i + 1)));
            start = i + 1;
        }
    }
    assert(v@.skip(start as int) =~= Seq::<char>::empty());
    assert(out@.map_values(|l: Vec<char>| l@) + Seq::<Seq<char>>::empty() =~= out@.map_values(
        |l: Vec<char>| l@,
    ));
    out
}

} // verus!
