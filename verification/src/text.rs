//! Text helpers on `str`/`String` viewed as sequences of chars.
use vstd::prelude::*;

verus! {

/// Three-way result of comparing two keys.
#[derive(Clone, Copy, Debug, PartialEq, Eq)]
pub enum KeyOrder {
    Less,
    Equal,
    Greater,
}

/// Strict lexicographic order on char sequences, chars compared by code point.
/// This is the order of `String`'s `Ord`: UTF-8 preserves code-point order.
pub open spec fn seq_lt(a: Seq<char>, b: Seq<char>) -> bool
    decreases a.len(),
{
    if a.len() == 0 {
        b.len() > 0
    } else if b.len() == 0 {
        false
    } else if a[0] != b[0] {
        (a[0] as int) < (b[0] as int)
    } else {
        seq_lt(a.drop_first(), b.drop_first())
    }
}

/// `seq_lt` is irreflexive.
pub proof fn lemma_seq_lt_irreflexive(a: Seq<char>)
    ensures
        !seq_lt(a, a),
    decreases a.len(),
{
    if a.len() > 0 {
        lemma_seq_lt_irreflexive(a.drop_first());
    }
}

/// `seq_lt` is transitive.
pub proof fn lemma_seq_lt_transitive(a: Seq<char>, b: Seq<char>, c: Seq<char>)
    requires
        seq_lt(a, b),
        seq_lt(b, c),
    ensures
        seq_lt(a, c),
    decreases a.len(),
{
    if a.len() > 0 && b.len() > 0 && c.len() > 0 && a[0] == b[0] && b[0] == c[0] {
        lemma_seq_lt_transitive(a.drop_first(), b.drop_first(), c.drop_first());
    }
}

/// Any two distinct sequences are ordered one way or the other.
pub proof fn lemma_seq_lt_total(a: Seq<char>, b: Seq<char>)
    requires
        a != b,
    ensures
        seq_lt(a, b) || seq_lt(b, a),
    decreases a.len(),
{
    if a.len() == 0 && b.len() == 0 {
        assert(a =~= b);
    }
    if a.len() > 0 && b.len() > 0 && a[0] != b[0] {
        assert((a[0] as int) != (b[0] as int));
    }
    if a.len() > 0 && b.len() > 0 && a[0] == b[0] {
        assert(a.drop_first() != b.drop_first()) by {
            if a.drop_first() == b.drop_first() {
                assert(a =~= seq![a[0]] + a.drop_first());
                assert(b =~= seq![b[0]] + b.drop_first());
            }
        }
        lemma_seq_lt_total(a.drop_first(), b.drop_first());
    }
}

/// `seq_lt` is asymmetric.
pub proof fn lemma_seq_lt_asymmetric(a: Seq<char>, b: Seq<char>)
    requires
        seq_lt(a, b),
    ensures
        !seq_lt(b, a),
{
    if seq_lt(b, a) {
        lemma_seq_lt_transitive(a, b, a);
        lemma_seq_lt_irreflexive(a);
    }
}

/// Compares two strings in the order of `seq_lt`.
pub fn compare_str(a: &str, b: &str) -> (r: KeyOrder)
    ensures
        r == KeyOrder::Less <==> seq_lt(a@, b@),
        r == KeyOrder::Equal <==> a@ == b@,
        r == KeyOrder::Greater <==> seq_lt(b@, a@),
{
    proof {
        lemma_seq_lt_irreflexive(a@);
        if seq_lt(a@, b@) { lemma_seq_lt_asymmetric(a@, b@); }
    }
    let la = a.unicode_len();
    let lb = b.unicode_len();
    let mut i: usize = 0;
    assert(a@.skip(0) =~= a@);
    assert(b@.skip(0) =~= b@);
    while i < la && i < lb
        invariant
            la == a@.len(),
            lb == b@.len(),
            i <= la,
            i <= lb,
            a@.take(i as int) == b@.take(i as int),
            seq_lt(a@, b@) == seq_lt(a@.skip(i as int), b@.skip(i as int)),
            seq_lt(b@, a@) == seq_lt(b@.skip(i as int), a@.skip(i as int)),
        decreases la - i,
    {
        let ca = a.get_char(i);
        let cb = b.get_char(i);
        assert(a@.skip(i as int)[0] == ca);
        assert(b@.skip(i as int)[0] == cb);
        if ca != cb {
            proof {
                if a@ == b@ { assert(a@[i as int] == b@[i as int]); }
            }
            if ca < cb {
                return KeyOrder::Less;
            } else {
                return KeyOrder::Greater;
            }
        }
        assert(a@.skip(i as int).drop_first() =~= a@.skip(i + 1));
        assert(b@.skip(i as int).drop_first() =~= b@.skip(i + 1));
        assert(a@.take(i + 1) =~= a@.take(i as int).push(ca));
        assert(b@.take(i + 1) =~= b@.take(i as int).push(cb));
        i = i + 1;
    }
    if la == lb {
        assert(a@ =~= a@.take(i as int));
        assert(b@ =~= b@.take(i as int));
        KeyOrder::Equal
    } else if la < lb {
        assert(a@.skip(i as int).len() == 0);
        proof { if a@ == b@ { assert(a@.len() == b@.len()); } }
        KeyOrder::Less
    } else {
        assert(b@.skip(i as int).len() == 0);
        KeyOrder::Greater
    }
}

} // verus!

verus! {

/// The last char of `s` is `/`.
pub open spec fn ends_with_slash(s: Seq<char>) -> bool {
    s.len() > 0 && s.last() == '/'
}

/// The first char of `s` is `/`.
pub open spec fn starts_with_slash(s: Seq<char>) -> bool {
    s.len() > 0 && s[0] == '/'
}

/// Whether `s` ends with `/`, as `s.ends_with("/")`.
pub fn str_ends_with_slash(s: &str) -> (b: bool)
    ensures
        b == ends_with_slash(s@),
{
    let n = s.unicode_len();
    if n == 0 {
        false
    } else {
        s.get_char(n - 1) == '/'
    }
}

/// Whether `s` starts with `/`, as `s.starts_with("/")`.
pub fn str_starts_with_slash(s: &str) -> (b: bool)
    ensures
        b == starts_with_slash(s@),
{
    let n = s.unicode_len();
    if n == 0 {
        false
    } else {
        s.get_char(0) == '/'
    }
}

/// A fresh `String` holding the chars of `a` followed by those of `b`.
pub fn concat_str(a: &str, b: &str) -> (r: String)
    ensures
        r@ == a@ + b@,
{
    let mut r = String::from_str(a);
    r.append(b);
    r
}

/// The chars that `char::is_whitespace` accepts: Unicode `White_Space`.
pub open spec fn is_white_space(c: char) -> bool {
    ||| ('\u{9}' <= c && c <= '\u{d}')
    ||| c == ' '
    ||| c == '\u{85}'
    ||| c == '\u{a0}'
    ||| c == '\u{1680}'
    ||| ('\u{2000}' <= c && c <= '\u{200a}')
    ||| c == '\u{2028}'
    ||| c == '\u{2029}'
    ||| c == '\u{202f}'
    ||| c == '\u{205f}'
    ||| c == '\u{3000}'
}

pub fn char_is_white_space(c: char) -> (b: bool)
    ensures
        b == is_white_space(c),
{
    ('\u{9}' <= c && c <= '\u{d}') || c == ' ' || c == '\u{85}' || c == '\u{a0}' || c == '\u{1680}'
        || ('\u{2000}' <= c && c <= '\u{200a}') || c == '\u{2028}' || c == '\u{2029}' || c
        == '\u{202f}' || c == '\u{205f}' || c == '\u{3000}'
}

/// `s` without its leading white space.
pub open spec fn trim_start(s: Seq<char>) -> Seq<char>
    decreases s.len(),
{
    if s.len() > 0 && is_white_space(s[0]) {
        trim_start(s.drop_first())
    } else {
        s
    }
}

/// `s` without its trailing white space.
pub open spec fn trim_end(s: Seq<char>) -> Seq<char>
    decreases s.len(),
{
    if s.len() > 0 && is_white_space(s.last()) {
        trim_end(s.drop_last())
    } else {
        s
    }
}

/// `s` without leading and trailing white space, as `str::trim`.
pub open spec fn trim(s: Seq<char>) -> Seq<char> {
    trim_end(trim_start(s))
}

proof fn lemma_trim_start_cut(s: Seq<char>) -> (a: int)
    ensures
        0 <= a <= s.len(),
        trim_start(s) == s.skip(a),
        forall|k: int| 0 <= k < a ==> is_white_space(#[trigger] s[k]),
        trim_start(s).len() > 0 ==> !is_white_space(trim_start(s)[0]),
    decreases s.len(),
{
    if s.len() > 0 && is_white_space(s[0]) {
        let a1 = lemma_trim_start_cut(s.drop_first());
        assert(s.drop_first().skip(a1) =~= s.skip(a1 + 1));
        assert forall|k: int| 0 <= k < a1 + 1 implies is_white_space(#[trigger] s[k]) by {
            if k > 0 {
                assert(s[k] == s.drop_first()[k - 1]);
            }
        }
        a1 + 1
    } else {
        assert(s.skip(0) =~= s);
        0
    }
}

proof fn lemma_trim_end_cut(s: Seq<char>) -> (b: int)
    ensures
        0 <= b <= s.len(),
        trim_end(s) == s.take(b),
        forall|k: int| b <= k < s.len() ==> is_white_space(#[trigger] s[k]),
        trim_end(s).len() > 0 ==> !is_white_space(trim_end(s)[trim_end(s).len() - 1]),
    decreases s.len(),
{
    if s.len() > 0 && is_white_space(s.last()) {
        let b1 = lemma_trim_end_cut(s.drop_last());
        assert(s.drop_last().take(b1) =~= s.take(b1));
        assert forall|k: int| b1 <= k < s.len() implies is_white_space(#[trigger] s[k]) by {
            if k < s.len() - 1 {
                assert(s[k] == s.drop_last()[k]);
            }
        }
        b1
    } else {
        assert(s.take(s.len() as int) =~= s);
        s.len() as int
    }
}

/// `trim` cuts white space off the two ends of `s` and nothing else: the
/// result is a contiguous part of `s`, everything before and after it is
/// white space, and it neither starts nor ends with white space.
pub proof fn lemma_trim_cuts_only_white_space(s: Seq<char>)
    ensures
        exists|a: int|
            0 <= a && a + trim(s).len() <= s.len() && #[trigger] s.subrange(a, a + trim(s).len()) == trim(s)
                && (forall|k: int| 0 <= k < a ==> is_white_space(#[trigger] s[k]))
                && (forall|k: int| a + trim(s).len() <= k < s.len() ==> is_white_space(#[trigger] s[k])),
        trim(s).len() > 0 ==> !is_white_space(trim(s)[0]) && !is_white_space(trim(s)[trim(s).len() - 1]),
{
    let a = lemma_trim_start_cut(s);
    let u = trim_start(s);
    let b = lemma_trim_end_cut(u);
    let t = trim(s);
    assert(t == u.take(b));
    assert(t =~= s.subrange(a, a + b));
    assert forall|k: int| a + t.len() <= k < s.len() implies is_white_space(#[trigger] s[k]) by {
        assert(s[k] == u[k - a]);
    }
    if t.len() > 0 {
        assert(t[0] == u[0]);
    }
    assert(s.subrange(a, a + t.len()) == t);
}

/// `s.trim()` as a new `String`.
pub fn trim_str(s: &str) -> (r: String)
    ensures
        r@ == trim(s@),
{
    let n = s.unicode_len();
    let mut i: usize = 0;
    assert(s@.skip(0) =~= s@);
    while i < n && char_is_white_space(s.get_char(i))
        invariant
            n == s@.len(),
            i <= n,
            trim_start(s@) == trim_start(s@.skip(i as int)),
        decreases n - i,
    {
        assert(s@.skip(i as int).drop_first() =~= s@.skip(i + 1));
        i = i + 1;
    }
    let mid = s.substring_char(i, n);
    assert(trim_start(s@) == mid@) by {
        assert(mid@ =~= s@.skip(i as int));
    }
    let mut j: usize = mid.unicode_len();
    let ghost m = mid@;
    assert(m.take(j as int) =~= m);
    while j > 0 && char_is_white_space(mid.get_char(j - 1))
        invariant
            m == mid@,
            j <= m.len(),
            trim_end(m) == trim_end(m.take(j as int)),
        decreases j,
    {
        assert(m.take(j as int).drop_last() =~= m.take(j - 1));
        j = j - 1;
    }
    let r = mid.substring_char(0, j);
    assert(r@ =~= m.take(j as int));
    String::from_str(r)
}

/// The index of the first `c` in `s`, or -1 if there is none.
pub open spec fn index_of_char(s: Seq<char>, c: char) -> int
    decreases s.len(),
{
    if s.len() == 0 {
        -1
    } else if s[0] == c {
        0
    } else {
        let r = index_of_char(s.drop_first(), c);
        if r < 0 {
            -1
        } else {
            r + 1
        }
    }
}

pub proof fn lemma_index_of_char(s: Seq<char>, c: char)
    ensures
        -1 <= index_of_char(s, c) < s.len(),
        index_of_char(s, c) >= 0 ==> s[index_of_char(s, c)] == c,
        forall|k: int| 0 <= k < s.len() && (index_of_char(s, c) < 0 || k < index_of_char(s, c)) ==> s[k] != c,
    decreases s.len(),
{
    if s.len() > 0 {
        lemma_index_of_char(s.drop_first(), c);
        assert forall|k: int| 0 <= k < s.len() && (index_of_char(s, c) < 0 || k < index_of_char(s, c)) implies s[k] != c by {
            if k > 0 {
                assert(s[k] == s.drop_first()[k - 1]);
            }
        }
    }
}

/// Finds the first `c` in `s`.
pub fn find_char(s: &str, c: char) -> (r: Option<usize>)
    ensures
        match r {
            Some(i) => index_of_char(s@, c) == i,
            None => index_of_char(s@, c) == -1,
        },
{
    let n = s.unicode_len();
    let mut i: usize = 0;
    assert(s@.skip(0) =~= s@);
    while i < n
        invariant
            n == s@.len(),
            i <= n,
            forall|k: int| 0 <= k < i ==> s@[k] != c,
        decreases n - i,
    {
        if s.get_char(i) == c {
            proof {
                lemma_index_of_char(s@, c);
            }
            return Some(i);
        }
        i = i + 1;
    }
    proof {
        lemma_index_of_char(s@, c);
    }
    None
}

} // verus!

verus! {

/// The char of the decimal digit `d`.
pub open spec fn digit_char(d: nat) -> char {
    (('0' as nat) + d) as char
}

/// The decimal representation of `n`, without leading zeros, as `format!("{}", n)`.
pub open spec fn decimal(n: nat) -> Seq<char>
    decreases n,
{
    if n < 10 {
        seq![digit_char(n)]
    } else {
        decimal(n / 10) + seq![digit_char(n % 10)]
    }
}

/// The decimal representation of a signed integer, with a `-` before a negative one.
pub open spec fn signed_decimal(n: int) -> Seq<char> {
    if n < 0 {
        seq!['-'] + decimal((-n) as nat)
    } else {
        decimal(n as nat)
    }
}

fn digit_str(d: u8) -> (r: &'static str)
    requires
        d < 10,
    ensures
        r@ == seq![digit_char(d as nat)],
{
    let r = match d {
        0 => "0",
        1 => "1",
        2 => "2",
        3 => "3",
        4 => "4",
        5 => "5",
        6 => "6",
        7 => "7",
        8 => "8",
        _ => "9",
    };
    proof {
        reveal_strlit("0");
        reveal_strlit("1");
        reveal_strlit("2");
        reveal_strlit("3");
        reveal_strlit("4");
        reveal_strlit("5");
        reveal_strlit("6");
        reveal_strlit("7");
        reveal_strlit("8");
        reveal_strlit("9");
    }
    assert(r@ =~= seq![digit_char(d as nat)]);
    r
}

/// `n` written in decimal, as `format!("{}", n)` or `n.to_string()`.
pub fn u128_to_decimal(n: u128) -> (r: String)
    ensures
        r@ == decimal(n as nat),
{
    let mut digits: Vec<u8> = Vec::new();
    let mut q: u128 = n;
    let ghost mut suffix: Seq<char> = Seq::empty();
    while q >= 10
        invariant
            decimal(n as nat) == decimal(q as nat) + suffix,
            suffix.len() == digits@.len(),
            forall|i: int| 0 <= i < digits@.len() ==> digits@[i] < 10,
            forall|i: int| 0 <= i < digits@.len() ==> #[trigger] suffix[i] == digit_char(digits@[digits@.len() - 1 - i] as nat),
        decreases q,
    {
        let d = (q % 10) as u8;
        proof {
            assert(decimal(q as nat) == decimal((q / 10) as nat) + seq![digit_char((q % 10) as nat)]);
            assert(decimal(n as nat) =~= decimal((q / 10) as nat) + (seq![digit_char(d as nat)] + suffix));
            suffix = seq![digit_char(d as nat)] + suffix;
        }
        digits.push(d);
        q = q / 10;
    }
    let d = q as u8;
    proof {
        suffix = seq![digit_char(d as nat)] + suffix;
    }
    digits.push(d);
    assert(decimal(n as nat) =~= suffix);
    let mut r = String::new();
    let len = digits.len();
    let mut k: usize = 0;
    while k < len
        invariant
            len == digits@.len(),
            k <= len,
            suffix.len() == len,
            forall|i: int| 0 <= i < digits@.len() ==> digits@[i] < 10,
            forall|i: int| 0 <= i < digits@.len() ==> #[trigger] suffix[i] == digit_char(digits@[digits@.len() - 1 - i] as nat),
            r@ == suffix.take(k as int),
        decreases len - k,
    {
        let s = digit_str(digits[len - 1 - k]);
        assert(suffix[k as int] == digit_char(digits@[len - 1 - k] as nat));
        r.append(s);
        assert(suffix.take(k + 1) =~= suffix.take(k as int) + s@);
        k = k + 1;
    }
    assert(suffix.take(len as int) =~= suffix);
    r
}

/// `n` written in decimal, as `format!("{}", n)` for an `i32`.
pub fn i32_to_decimal(n: i32) -> (r: String)
    ensures
        r@ == signed_decimal(n as int),
{
    if n < 0 {
        let m: u128 = (0i64 - (n as i64)) as u128;
        let digits = u128_to_decimal(m);
        let r = concat_str("-", digits.as_str());
        proof { reveal_strlit("-"); }
        assert(r@ =~= signed_decimal(n as int));
        r
    } else {
        u128_to_decimal(n as u128)
    }
}

} // verus!
