//! Text utilities over character sequences.

use vstd::prelude::*;

verus! {

/// The characters of `s`, in order.
pub fn chars_of(s: &str) -> (v: Vec<char>)
    ensures
        v@ == s@,
{
    let mut v: Vec<char> = Vec::new();
    for c in it: s.chars()
        invariant
            it.seq() == s@,
            v@ == it.seq().take(it.index() as int),
    {
        v.push(c);
    }
    v
}

/// Whether two string slices hold the same characters.
pub fn str_eq(a: &str, b: &str) -> (r: bool)
    ensures
        r == (a@ == b@),
{
    let x = chars_of(a);
    let y = chars_of(b);
    if x.len() != y.len() {
        return false;
    }
    let mut i: usize = 0;
    while i < x.len()
        invariant
            x@ == a@,
            y@ == b@,
            x.len() == y.len(),
            i <= x.len(),
            forall|j: int| 0 <= j < i ==> x@[j] == y@[j],
        decreases x.len() - i,
    {
        if x[i] != y[i] {
            return false;
        }
        i += 1;
    }
    assert(x@ =~= y@);
    true
}


/// Index of the first occurrence of `x` in `s`, if any.
pub open spec fn first_index<A>(s: Seq<A>, x: A) -> Option<int>
    decreases s.len(),
{
    if s.len() == 0 {
        None
    } else {
        match first_index(s.drop_last(), x) {
            Some(i) => Some(i),
            None => if s.last() == x {
                Some(s.len() - 1)
            } else {
                None
            },
        }
    }
}

/// `first_index` is the least position holding `x`, and `None` exactly when
/// `x` does not occur.
pub proof fn lemma_first_index<A>(s: Seq<A>, x: A)
    ensures
        match first_index(s, x) {
            Some(i) => 0 <= i < s.len() && s[i] == x && forall|j: int| 0 <= j < i ==> s[j] != x,
            None => forall|j: int| 0 <= j < s.len() ==> s[j] != x,
        },
    decreases s.len(),
{
    if s.len() > 0 {
        lemma_first_index(s.drop_last(), x);
        assert forall|j: int| 0 <= j < s.len() - 1 implies s.drop_last()[j] == s[j] by {}
    }
}

/// A position that holds `x` with no earlier one is `first_index`.
pub proof fn lemma_first_index_at<A>(s: Seq<A>, x: A, i: int)
    requires
        0 <= i < s.len(),
        s[i] == x,
        forall|j: int| 0 <= j < i ==> s[j] != x,
    ensures
        first_index(s, x) == Some(i),
{
    lemma_first_index(s, x);
}

/// Position of the first `c` in `s`.
pub fn find_char(s: &str, c: char) -> (r: Option<usize>)
    ensures
        match r {
            Some(i) => first_index(s@, c) == Some(i as int),
            None => first_index(s@, c) is None,
        },
{
    let v = chars_of(s);
    let mut i: usize = 0;
    while i < v.len()
        invariant
            v@ == s@,
            i <= v.len(),
            forall|j: int| 0 <= j < i ==> v@[j] != c,
        decreases v.len() - i,
    {
        if v[i] == c {
            proof {
                lemma_first_index_at(s@, c, i as int);
            }
            return Some(i);
        }
        i += 1;
    }
    proof {
        lemma_first_index(s@, c);
    }
    None
}

/// What `split_once` gives: the text before the first `c` and the text after it.
pub open spec fn split_once_spec(s: Seq<char>, c: char) -> Option<(Seq<char>, Seq<char>)> {
    match first_index(s, c) {
        Some(i) => Some((s.take(i), s.skip(i + 1))),
        None => None,
    }
}

/// Splitting loses nothing: the two parts put back together around `c` give
/// the text again, and the first part holds no `c`.
pub proof fn law_split_once_rejoins(s: Seq<char>, c: char)
    ensures
        split_once_spec(s, c) matches Some((a, b)) ==> s == a + seq![c] + b && !a.contains(c),
        split_once_spec(s, c) is None ==> !s.contains(c),
{
    lemma_first_index(s, c);
    match first_index(s, c) {
        Some(i) => {
            assert(s =~= s.take(i) + seq![c] + s.skip(i + 1));
            assert forall|j: int| 0 <= j < s.take(i).len() implies s.take(i)[j] != c by {
                assert(s.take(i)[j] == s[j]);
            }
        },
        None => {},
    }
}

/// Splits `s` at the first occurrence of `c`, dropping that character.
pub fn split_once<'a>(s: &'a str, c: char) -> (r: Option<(&'a str, &'a str)>)
    ensures
        match r {
            Some((a, b)) => split_once_spec(s@, c) == Some((a@, b@)),
            None => split_once_spec(s@, c) is None,
        },
{
    match find_char(s, c) {
        Some(i) => {
            proof {
                lemma_first_index(s@, c);
            }
            let n = s.unicode_len();
            let a = s.substring_char(0, i);
            let b = s.substring_char(i + 1, n);
            assert(a@ =~= s@.take(i as int));
            assert(b@ =~= s@.skip(i + 1));
            Some((a, b))
        },
        None => None,
    }
}

/// `needle` occurs in `hay` at position `i`.
pub open spec fn occurs_at(hay: Seq<char>, needle: Seq<char>, i: int) -> bool {
    0 <= i && i + needle.len() <= hay.len() && hay.subrange(i, i + needle.len()) == needle
}

/// `needle` occurs somewhere in `hay` (the empty needle occurs everywhere).
pub open spec fn contains_seq(hay: Seq<char>, needle: Seq<char>) -> bool {
    exists|i: int| occurs_at(hay, needle, i)
}

/// `needle` occurs in `hay` exactly when `hay` is some text, then `needle`,
/// then some more text.
pub proof fn law_contains_seq_splits(hay: Seq<char>, needle: Seq<char>)
    ensures
        contains_seq(hay, needle) == (exists|a: Seq<char>, b: Seq<char>| hay == a + needle + b),
{
    if contains_seq(hay, needle) {
        let i = choose|i: int| occurs_at(hay, needle, i);
        let a = hay.take(i);
        let b = hay.skip(i + needle.len());
        assert(hay =~= a + needle + b);
    }
    assert forall|a: Seq<char>, b: Seq<char>| hay == a + needle + b implies contains_seq(
        hay,
        needle,
    ) by {
        let i = a.len() as int;
        assert(hay.subrange(i, i + needle.len()) =~= needle);
        assert(occurs_at(hay, needle, i));
    }
}

fn occurs_at_exec(hay: &Vec<char>, needle: &Vec<char>, i: usize) -> (r: bool)
    requires
        i + needle.len() <= hay.len(),
    ensures
        r == occurs_at(hay@, needle@, i as int),
{
    let mut k: usize = 0;
    while k < needle.len()
        invariant
            i + needle.len() <= hay.len(),
            k <= needle.len(),
            forall|j: int| 0 <= j < k ==> hay@[i + j] == needle@[j],
        decreases needle.len() - k,
    {
        if hay[i + k] != needle[k] {
            assert(hay@.subrange(i as int, i + needle.len())[k as int] != needle@[k as int]);
            return false;
        }
        k += 1;
    }
    assert(hay@.subrange(i as int, i + needle.len()) =~= needle@);
    true
}

/// Whether `needle` occurs in `hay`.
pub fn contains(hay: &str, needle: &str) -> (r: bool)
    ensures
        r == contains_seq(hay@, needle@),
{
    let h = chars_of(hay);
    let n = chars_of(needle);
    if n.len() > h.len() {
        return false;
    }
    if n.len() == 0 {
        assert(hay@.subrange(0, 0) =~= needle@);
        assert(occurs_at(hay@, needle@, 0));
        return true;
    }
    let last = h.len() - n.len();
    let mut i: usize = 0;
    while i <= last
        invariant
            h@ == hay@,
            n@ == needle@,
            n.len() > 0,
            last == h.len() - n.len(),
            i <= last + 1,
            forall|j: int| 0 <= j < i ==> !occurs_at(hay@, needle@, j),
        decreases last + 1 - i,
    {
        if occurs_at_exec(&h, &n, i) {
            return true;
        }
        i += 1;
    }
    false
}

/// Whether `s` begins with `prefix`.
pub fn starts_with(s: &str, prefix: &str) -> (r: bool)
    ensures
        r == prefix@.is_prefix_of(s@),
{
    let h = chars_of(s);
    let p = chars_of(prefix);
    if p.len() > h.len() {
        return false;
    }
    let r = occurs_at_exec(&h, &p, 0);
    assert(r == (p@ =~= h@.subrange(0, p@.len() as int)));
    r
}

/// Whether `s` ends with `suffix`.
pub fn ends_with(s: &str, suffix: &str) -> (r: bool)
    ensures
        r == suffix@.is_suffix_of(s@),
{
    let h = chars_of(s);
    let p = chars_of(suffix);
    if p.len() > h.len() {
        return false;
    }
    let r = occurs_at_exec(&h, &p, h.len() - p.len());
    assert(r == (p@ =~= h@.subrange(h@.len() - p@.len(), h@.len() as int)));
    r
}


/// Unicode `White_Space`, the property that `char::is_whitespace` tests.
pub open spec fn is_white_space(c: char) -> bool {
    let u = c as u32;
    ||| 0x9 <= u <= 0xD
    ||| u == 0x20
    ||| u == 0x85
    ||| u == 0xA0
    ||| u == 0x1680
    ||| 0x2000 <= u <= 0x200A
    ||| u == 0x2028
    ||| u == 0x2029
    ||| u == 0x202F
    ||| u == 0x205F
    ||| u == 0x3000
}

/// Whether `c` is Unicode white space.
pub fn is_whitespace(c: char) -> (r: bool)
    ensures
        r == is_white_space(c),
{
    let u = c as u32;
    (0x9 <= u && u <= 0xD) || u == 0x20 || u == 0x85 || u == 0xA0 || u == 0x1680 || (0x2000 <= u
        && u <= 0x200A) || u == 0x2028 || u == 0x2029 || u == 0x202F || u == 0x205F || u == 0x3000
}

/// Number of white-space characters that `s` begins with.
pub open spec fn leading_ws(s: Seq<char>) -> nat
    decreases s.len(),
{
    if s.len() == 0 {
        0
    } else if leading_ws(s.drop_last()) == s.len() - 1 && is_white_space(s.last()) {
        s.len()
    } else {
        leading_ws(s.drop_last())
    }
}

/// Number of white-space characters that `s` ends with.
pub open spec fn trailing_ws(s: Seq<char>) -> nat {
    leading_ws(s.reverse())
}

/// `s` with leading and trailing white space removed, as `str::trim` does.
pub open spec fn trim_spec(s: Seq<char>) -> Seq<char> {
    if leading_ws(s) == s.len() {
        Seq::empty()
    } else {
        s.subrange(leading_ws(s) as int, s.len() - trailing_ws(s))
    }
}

/// `leading_ws` is the length of the longest all-white-space prefix.
pub proof fn lemma_leading_ws(s: Seq<char>)
    ensures
        leading_ws(s) <= s.len(),
        forall|j: int| 0 <= j < leading_ws(s) ==> is_white_space(#[trigger] s[j]),
        leading_ws(s) < s.len() ==> !is_white_space(s[leading_ws(s) as int]),
    decreases s.len(),
{
    if s.len() > 0 {
        let t = s.drop_last();
        lemma_leading_ws(t);
        assert forall|j: int| 0 <= j < t.len() implies t[j] == s[j] by {}
    }
}

/// A count with the characterising property of `leading_ws` is `leading_ws`.
proof fn lemma_leading_ws_unique(s: Seq<char>, k: int)
    requires
        0 <= k <= s.len(),
        forall|j: int| 0 <= j < k ==> is_white_space(#[trigger] s[j]),
        k < s.len() ==> !is_white_space(s[k]),
    ensures
        leading_ws(s) == k,
{
    lemma_leading_ws(s);
    if leading_ws(s) < k {
        assert(is_white_space(s[leading_ws(s) as int]));
    }
    if leading_ws(s) > k {
        assert(is_white_space(s[k]));
    }
}

/// Trimming takes off white space and nothing else, and all of it at both
/// ends: `s` is a white-space run, the trimmed text, and a white-space run;
/// and the trimmed text, unless empty, starts and ends with a character that
/// is not white space.
pub proof fn law_trim(s: Seq<char>)
    ensures
        exists|a: Seq<char>, b: Seq<char>|
            s == a + trim_spec(s) + b && (forall|i: int|
                0 <= i < a.len() ==> is_white_space(#[trigger] a[i])) && (forall|i: int|
                0 <= i < b.len() ==> is_white_space(#[trigger] b[i])),
        trim_spec(s).len() > 0 ==> !is_white_space(trim_spec(s)[0]) && !is_white_space(
            trim_spec(s).last(),
        ),
        trim_spec(s).len() == 0 <==> (forall|i: int|
            0 <= i < s.len() ==> is_white_space(#[trigger] s[i])),
{
    lemma_leading_ws(s);
    let lo = leading_ws(s) as int;
    let n = s.len() as int;
    if lo == n {
        assert(s =~= s + trim_spec(s) + Seq::<char>::empty());
    } else {
        lemma_trim_nonempty(s);
        let rs = s.reverse();
        lemma_leading_ws(rs);
        let tr = trailing_ws(s) as int;
        let hi = n - tr;
        assert(rs[n - 1 - lo] == s[lo]);
        if tr > n - 1 - lo {
            assert(is_white_space(rs[n - 1 - lo]));
        }
        let a = s.take(lo);
        let b = s.skip(hi);
        assert(s =~= a + trim_spec(s) + b);
        assert forall|i: int| 0 <= i < b.len() implies is_white_space(#[trigger] b[i]) by {
            assert(b[i] == s[hi + i]);
            assert(rs[n - 1 - (hi + i)] == s[hi + i]);
        }
        assert forall|i: int| 0 <= i < a.len() implies is_white_space(#[trigger] a[i]) by {
            assert(a[i] == s[i]);
        }
        assert(trim_spec(s)[0] == s[lo]);
        assert(trim_spec(s).last() == s[hi - 1]);
        assert(rs[tr] == s[hi - 1]);
        assert(!is_white_space(s[lo]));
    }
}

/// Whether every character of `s` is white space, that is, `s.trim()` is empty.
pub fn is_blank(s: &str) -> (r: bool)
    ensures
        r == (trim_spec(s@).len() == 0),
        r == (forall|j: int| 0 <= j < s@.len() ==> is_white_space(#[trigger] s@[j])),
{
    let v = chars_of(s);
    let mut i: usize = 0;
    while i < v.len()
        invariant
            v@ == s@,
            i <= v.len(),
            forall|j: int| 0 <= j < i ==> is_white_space(#[trigger] s@[j]),
        decreases v.len() - i,
    {
        if !is_whitespace(v[i]) {
            proof {
                lemma_leading_ws_unique(s@, i as int);
                lemma_trim_nonempty(s@);
            }
            return false;
        }
        i += 1;
    }
    proof {
        lemma_leading_ws_unique(s@, s@.len() as int);
    }
    true
}

proof fn lemma_trim_nonempty(s: Seq<char>)
    requires
        leading_ws(s) < s.len(),
    ensures
        trim_spec(s).len() > 0,
{
    lemma_leading_ws(s);
    lemma_leading_ws(s.reverse());
    let lo = leading_ws(s) as int;
    let t = trailing_ws(s) as int;
    // the character at `lo` is not white space, so the suffix count stops before it
    assert(s.reverse()[s.len() - 1 - lo] == s[lo]);
    if t > s.len() - 1 - lo {
        assert(is_white_space(s.reverse()[s.len() - 1 - lo]));
    }
}

/// `s` without leading and trailing white space.
pub fn trim<'a>(s: &'a str) -> (r: &'a str)
    ensures
        r@ == trim_spec(s@),
{
    let v = chars_of(s);
    let n = v.len();
    let mut lo: usize = 0;
    while lo < n && is_whitespace(v[lo])
        invariant
            v@ == s@,
            n == v.len(),
            lo <= n,
            forall|j: int| 0 <= j < lo ==> is_white_space(#[trigger] s@[j]),
        decreases n - lo,
    {
        lo += 1;
    }
    proof {
        lemma_leading_ws_unique(s@, lo as int);
    }
    if lo == n {
        let e = s.substring_char(0, 0);
        assert(e@ =~= trim_spec(s@));
        return e;
    }
    let mut hi: usize = n;
    while hi > lo && is_whitespace(v[hi - 1])
        invariant
            v@ == s@,
            n == v.len(),
            lo < n,
            !is_white_space(s@[lo as int]),
            lo <= hi <= n,
            forall|j: int| hi <= j < n ==> is_white_space(#[trigger] s@[j]),
        decreases hi - lo,
    {
        hi -= 1;
    }
    proof {
        let rs = s@.reverse();
        assert forall|j: int| 0 <= j < n - hi implies is_white_space(#[trigger] rs[j]) by {
            assert(rs[j] == s@[n - 1 - j]);
        }
        if n - hi < n {
            assert(rs[n - hi] == s@[hi - 1]);
            if hi == lo {
                assert(false);
            }
        }
        lemma_leading_ws_unique(rs, n - hi);
    }
    let r = s.substring_char(lo, hi);
    r
}

/// Lower-case mapping of a string, as `str::to_lowercase` computes it.
pub uninterp spec fn lowercase(s: Seq<char>) -> Seq<char>;

/// Calls `str::to_lowercase`. Trusted: the result is the Unicode lower-case
/// mapping of `s`, named `lowercase`; what that mapping is per character is
/// left unsaid.
#[verifier::external_body]
pub(crate) fn to_lowercase(s: &str) -> (r: String)
    ensures
        r@ == lowercase(s@),
{
    s.to_lowercase()
}

/// The character of a decimal digit.
pub open spec fn digit_char(d: int) -> char {
    (48 + d) as char
}

/// Decimal digits of a natural number, most significant first.
pub open spec fn nat_decimal(n: nat) -> Seq<char>
    decreases n,
{
    if n < 10 {
        seq![digit_char(n as int)]
    } else {
        nat_decimal(n / 10).push(digit_char((n % 10) as int))
    }
}

/// Decimal text of an integer, with a leading `-` when negative, as `Display` writes it.
pub open spec fn int_decimal(n: int) -> Seq<char> {
    if n < 0 {
        seq!['-'] + nat_decimal((-n) as nat)
    } else {
        nat_decimal(n as nat)
    }
}

/// `c` is one of the ASCII digits `0` to `9`.
pub open spec fn is_digit(c: char) -> bool {
    48 <= (c as u32) <= 57
}

/// The number that a string of digits spells in base ten.
pub open spec fn digits_value(s: Seq<char>) -> int
    decreases s.len(),
{
    if s.len() == 0 {
        0
    } else {
        digits_value(s.drop_last()) * 10 + ((s.last() as u32) - 48)
    }
}

/// `d` is a non-empty string of digits, without a leading zero unless it is
/// the single digit `0`, that spells `v` in base ten.
pub open spec fn spells(d: Seq<char>, v: int) -> bool {
    &&& d.len() > 0
    &&& forall|i: int| 0 <= i < d.len() ==> is_digit(#[trigger] d[i])
    &&& digits_value(d) == v
    &&& d.len() > 1 ==> d[0] != '0'
}

/// `t` is how `n` is written in base ten: its digits, after a `-` exactly
/// when `n` is negative.
pub open spec fn writes_decimal(t: Seq<char>, n: int) -> bool {
    if n < 0 {
        t.len() > 0 && t[0] == '-' && spells(t.skip(1), -n)
    } else {
        spells(t, n)
    }
}

proof fn lemma_digit_char(d: int)
    requires
        0 <= d < 10,
    ensures
        digit_char(d) as u32 == 48 + d,
        is_digit(digit_char(d)),
{
}

proof fn lemma_nat_decimal(n: nat)
    ensures
        writes_decimal(nat_decimal(n), n as int),
    decreases n,
{
    if n < 10 {
        lemma_digit_char(n as int);
        let t = nat_decimal(n);
        assert(t.len() == 1);
        assert(t.drop_last() =~= Seq::<char>::empty());
        assert(t.last() == t[0]);
        assert(digits_value(t.drop_last()) == 0);
        assert(digits_value(t) == n);
    } else {
        lemma_nat_decimal(n / 10);
        lemma_digit_char((n % 10) as int);
        let h = nat_decimal(n / 10);
        let t = nat_decimal(n);
        assert(t.drop_last() =~= h);
        assert(digits_value(t) == digits_value(h) * 10 + (n % 10));
        assert((n / 10) * 10 + n % 10 == n) by (nonlinear_arith);
        assert forall|i: int| 0 <= i < t.len() implies is_digit(#[trigger] t[i]) by {
            if i < h.len() {
                assert(t[i] == h[i]);
            } else {
                assert(t[i] == digit_char((n % 10) as int));
            }
        }
        assert(t[0] == h[0]);
        if h.len() == 1 {
            assert(h.drop_last() =~= Seq::<char>::empty());
            assert(h.last() == h[0]);
            assert(digits_value(h.drop_last()) == 0);
            assert(digits_value(h) == (h[0] as u32) - 48);
        }
    }
}

/// The decimal text of any integer spells that integer in base ten, with a
/// `-` in front exactly when it is negative.
pub proof fn law_int_decimal_writes(n: int)
    ensures
        writes_decimal(int_decimal(n), n),
{
    if n < 0 {
        lemma_nat_decimal((-n) as nat);
        let t = int_decimal(n);
        assert(t == seq!['-'] + nat_decimal((-n) as nat));
        assert(t[0] == '-');
        assert(t.skip(1) =~= nat_decimal((-n) as nat));
    } else {
        lemma_nat_decimal(n as nat);
    }
}

fn digit_text(d: u32) -> (r: &'static str)
    requires
        d < 10,
    ensures
        r@ == seq![digit_char(d as int)],
{
    match d {
        0 => {
            proof {
                reveal_strlit("0");
            }
            "0"
        },
        1 => {
            proof {
                reveal_strlit("1");
            }
            "1"
        },
        2 => {
            proof {
                reveal_strlit("2");
            }
            "2"
        },
        3 => {
            proof {
                reveal_strlit("3");
            }
            "3"
        },
        4 => {
            proof {
                reveal_strlit("4");
            }
            "4"
        },
        5 => {
            proof {
                reveal_strlit("5");
            }
            "5"
        },
        6 => {
            proof {
                reveal_strlit("6");
            }
            "6"
        },
        7 => {
            proof {
                reveal_strlit("7");
            }
            "7"
        },
        8 => {
            proof {
                reveal_strlit("8");
            }
            "8"
        },
        9 => {
            proof {
                reveal_strlit("9");
            }
            "9"
        },
        _ => {
            proof {
                reveal_strlit("9");
            }
            "9"
        },
    }
}

fn push_decimal(m: u32, out: &mut String)
    ensures
        final(out)@ == old(out)@ + nat_decimal(m as nat),
    decreases m,
{
    if m >= 10 {
        push_decimal(m / 10, out);
    }
    out.append(digit_text(m % 10));
    assert(old(out)@ + nat_decimal(m as nat) =~= final(out)@) by {
        if m >= 10 {
            assert(nat_decimal(m as nat) == nat_decimal((m / 10) as nat).push(digit_char((m % 10) as int)));
        }
    }
}

/// Decimal text of `n`, as `n.to_string()` gives it.
pub fn decimal(n: i32) -> (r: String)
    ensures
        r@ == int_decimal(n as int),
{
    let mut s = String::new();
    if n < 0 {
        s.append("-");
        proof {
            reveal_strlit("-");
        }
        let m: u32 = (0i64 - (n as i64)) as u32;
        push_decimal(m, &mut s);
    } else {
        push_decimal(n as u32, &mut s);
    }
    assert(s@ =~= int_decimal(n as int));
    s
}

/// The text of each string in a list.
pub open spec fn addr_views(v: Seq<String>) -> Seq<Seq<char>> {
    v.map_values(|a: String| a@)
}

/// Whether `list` holds `address`.
pub fn holds(list: &Vec<String>, address: &String) -> (r: bool)
    ensures
        r == addr_views(list@).contains(address@),
{
    let mut i: usize = 0;
    while i < list.len()
        invariant
            i <= list.len(),
            forall|j: int| 0 <= j < i ==> list@[j]@ != address@,
        decreases list.len() - i,
    {
        if list[i] == *address {
            assert(addr_views(list@)[i as int] == address@);
            return true;
        }
        i += 1;
    }
    false
}

} // verus!
