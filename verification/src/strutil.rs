//! Verified string utilities: decimal rendering, base-name and extension
//! extraction, blank tests and joining.  Everything is specified over
//! `Seq<char>` views.

use vstd::prelude::*;

verus! {

broadcast use {
    vstd::std_specs::vec::axiom_vec_index_decreases,
    vstd::std_specs::vec::axiom_vec_decreases_to_view,
    vstd::seq::axiom_seq_index_decreases,
    vstd::seq::axiom_seq_subrange_decreases,
};

/// The character for a single decimal digit.
pub open spec fn digit_char(d: nat) -> char {
    if d == 0 {
        '0'
    } else if d == 1 {
        '1'
    } else if d == 2 {
        '2'
    } else if d == 3 {
        '3'
    } else if d == 4 {
        '4'
    } else if d == 5 {
        '5'
    } else if d == 6 {
        '6'
    } else if d == 7 {
        '7'
    } else if d == 8 {
        '8'
    } else {
        '9'
    }
}

/// Decimal rendering of a natural number, without leading zeroes.
pub open spec fn dec_spec(n: nat) -> Seq<char>
    decreases n,
{
    if n < 10 {
        seq![digit_char(n)]
    } else {
        dec_spec(n / 10).push(digit_char(n % 10))
    }
}

pub proof fn lemma_dec_len(n: nat)
    ensures
        dec_spec(n).len() >= 1,
        n < 10 <==> dec_spec(n).len() == 1,
    decreases n,
{
    if n >= 10 {
        lemma_dec_len(n / 10);
    }
}

/// Distinct numbers render to distinct digit strings.
pub proof fn lemma_dec_injective(a: nat, b: nat)
    requires
        dec_spec(a) == dec_spec(b),
    ensures
        a == b,
    decreases a,
{
    lemma_dec_len(a);
    lemma_dec_len(b);
    if a < 10 && b < 10 {
        assert(dec_spec(a)[0] == digit_char(a));
        assert(dec_spec(b)[0] == digit_char(b));
    } else if a >= 10 && b >= 10 {
        assert(dec_spec(a).last() == digit_char(a % 10));
        assert(dec_spec(b).last() == digit_char(b % 10));
        assert(a % 10 == b % 10);
        assert(dec_spec(a).drop_last() =~= dec_spec(a / 10));
        assert(dec_spec(b).drop_last() =~= dec_spec(b / 10));
        lemma_dec_injective(a / 10, b / 10);
        assert(a == 10 * (a / 10) + a % 10);
        assert(b == 10 * (b / 10) + b % 10);
    } else if a < 10 {
        lemma_dec_len(b);
        assert(dec_spec(b).len() == dec_spec(b / 10).len() + 1);
        lemma_dec_len(b / 10);
        assert(false);
    } else {
        lemma_dec_len(a / 10);
        assert(false);
    }
}

/// One decimal digit as a string slice.
fn digit_str(d: u64) -> (r: &'static str)
    requires
        d < 10,
    ensures
        r@ =~= seq![digit_char(d as nat)],
{
    proof {
        reveal_strlit("0");
        reveal_strlit("1");
        reveal_strlit("2");
        reveal_strlit("3");
        reveal_strlit("4");
        reveal_strlit("5");
        reveal_strlit("6");
        reveal_strlit("7");
        reveal_strlit("8");
        reveal_strlit("9");
    }
    if d == 0 {
        "0"
    } else if d == 1 {
        "1"
    } else if d == 2 {
        "2"
    } else if d == 3 {
        "3"
    } else if d == 4 {
        "4"
    } else if d == 5 {
        "5"
    } else if d == 6 {
        "6"
    } else if d == 7 {
        "7"
    } else if d == 8 {
        "8"
    } else {
        "9"
    }
}

/// Decimal rendering of `n`.
pub fn u64_to_dec(n: u64) -> (r: String)
    ensures
        r@ == dec_spec(n as nat),
    decreases n,
{
    if n < 10 {
        String::from_str(digit_str(n))
    } else {
        let mut s = u64_to_dec(n / 10);
        s.append(digit_str(n % 10));
        assert(s@ =~= dec_spec(n as nat));
        s
    }
}

/// Decimal rendering of `n`, left-padded with zeroes to two digits.
pub open spec fn pad2_spec(n: nat) -> Seq<char> {
    if n < 10 {
        seq!['0'] + dec_spec(n)
    } else {
        dec_spec(n)
    }
}

/// Decimal rendering of `n`, left-padded with zeroes to four digits.
pub open spec fn pad4_spec(n: nat) -> Seq<char> {
    if n < 10 {
        seq!['0', '0', '0'] + dec_spec(n)
    } else if n < 100 {
        seq!['0', '0'] + dec_spec(n)
    } else if n < 1000 {
        seq!['0'] + dec_spec(n)
    } else {
        dec_spec(n)
    }
}

/// Render `n` zero-padded to two digits.
pub fn pad2(n: u64) -> (r: String)
    ensures
        r@ == pad2_spec(n as nat),
{
    proof {
        reveal_strlit("0");
    }
    if n < 10 {
        let mut s = String::from_str("0");
        let d = u64_to_dec(n);
        s.append(d.as_str());
        assert(s@ =~= pad2_spec(n as nat));
        s
    } else {
        let r = u64_to_dec(n);
        r
    }
}

/// Render `n` zero-padded to four digits.
pub fn pad4(n: u64) -> (r: String)
    ensures
        r@ == pad4_spec(n as nat),
{
    proof {
        reveal_strlit("0");
        reveal_strlit("00");
        reveal_strlit("000");
    }
    if n < 10 {
        let mut s = String::from_str("000");
        let d = u64_to_dec(n);
        s.append(d.as_str());
        assert(s@ =~= pad4_spec(n as nat));
        s
    } else if n < 100 {
        let mut s = String::from_str("00");
        let d = u64_to_dec(n);
        s.append(d.as_str());
        assert(s@ =~= pad4_spec(n as nat));
        s
    } else if n < 1000 {
        let mut s = String::from_str("0");
        let d = u64_to_dec(n);
        s.append(d.as_str());
        assert(s@ =~= pad4_spec(n as nat));
        s
    } else {
        let r = u64_to_dec(n);
        r
    }
}

/// The suffix of `s` strictly after the last occurrence of `c`, or `None`
/// when `c` does not occur.
pub open spec fn suffix_after_last(s: Seq<char>, c: char) -> Option<Seq<char>>
    decreases s.len(),
{
    if s.len() == 0 {
        Option::None
    } else if s.last() == c {
        Option::Some(Seq::empty())
    } else {
        match suffix_after_last(s.drop_last(), c) {
            Option::Some(t) => Option::Some(t.push(s.last())),
            Option::None => Option::None,
        }
    }
}

pub proof fn lemma_suffix_after_last(s: Seq<char>, c: char, i: int)
    requires
        0 <= i < s.len(),
        s[i] == c,
        forall|j: int| i < j < s.len() ==> s[j] != c,
    ensures
        suffix_after_last(s, c) == Option::Some(s.subrange(i + 1, s.len() as int)),
    decreases s.len(),
{
    if i == s.len() - 1 {
        assert(s.last() == c);
        assert(s.subrange(i + 1, s.len() as int) =~= Seq::<char>::empty());
    } else {
        assert(s.last() != c);
        let d = s.drop_last();
        assert(d[i] == c);
        lemma_suffix_after_last(d, c, i);
        assert(d.subrange(i + 1, d.len() as int).push(s.last()) =~= s.subrange(
            i + 1,
            s.len() as int,
        ));
    }
}

pub proof fn lemma_suffix_after_last_none(s: Seq<char>, c: char)
    requires
        forall|j: int| 0 <= j < s.len() ==> s[j] != c,
    ensures
        suffix_after_last(s, c) == Option::<Seq<char>>::None,
    decreases s.len(),
{
    if s.len() > 0 {
        lemma_suffix_after_last_none(s.drop_last(), c);
    }
}

/// The base name of a path: the suffix after the last `/`, or the whole
/// string when there is no `/`.
pub open spec fn base_name_spec(s: Seq<char>) -> Seq<char> {
    match suffix_after_last(s, '/') {
        Option::Some(t) => t,
        Option::None => s,
    }
}

/// The extension of a base name: the suffix after the last `.`, provided
/// that dot is not the first character; `None` otherwise.
pub open spec fn ext_spec(base: Seq<char>) -> Option<Seq<char>> {
    match suffix_after_last(base, '.') {
        Option::Some(t) => {
            if t.len() + 1 < base.len() {
                Option::Some(t)
            } else {
                Option::None
            }
        },
        Option::None => Option::None,
    }
}

/// Index of the last occurrence of `c` in `s`.
pub fn rfind(s: &str, c: char) -> (r: Option<usize>)
    ensures
        match r {
            Option::Some(i) => i < s@.len() && s@[i as int] == c && (forall|j: int|
                i < j < s@.len() ==> s@[j] != c),
            Option::None => forall|j: int| 0 <= j < s@.len() ==> s@[j] != c,
        },
{
    let n = s.unicode_len();
    let mut i: usize = n;
    while i > 0
        invariant
            i <= n,
            n == s@.len(),
            forall|j: int| i <= j < s@.len() ==> s@[j] != c,
        decreases i,
    {
        i = i - 1;
        let ch = s.get_char(i);
        if ch == c {
            return Option::Some(i);
        }
    }
    Option::None
}

/// The base name of a path string.
pub fn base_name(s: &str) -> (r: String)
    ensures
        r@ == base_name_spec(s@),
{
    let n = s.unicode_len();
    match rfind(s, '/') {
        Option::Some(i) => {
            proof {
                lemma_suffix_after_last(s@, '/', i as int);
            }
            let t = s.substring_char(i + 1, n);
            String::from_str(t)
        },
        Option::None => {
            proof {
                lemma_suffix_after_last_none(s@, '/');
            }
            String::from_str(s)
        },
    }
}

/// The extension of a base name, per `ext_spec`.
pub fn extension_of(base: &str) -> (r: Option<String>)
    ensures
        match r {
            Option::Some(e) => ext_spec(base@) == Option::Some(e@),
            Option::None => ext_spec(base@) == Option::<Seq<char>>::None,
        },
{
    let n = base.unicode_len();
    match rfind(base, '.') {
        Option::Some(i) => {
            proof {
                lemma_suffix_after_last(base@, '.', i as int);
            }
            if i > 0 {
                let t = base.substring_char(i + 1, n);
                Option::Some(String::from_str(t))
            } else {
                Option::None
            }
        },
        Option::None => {
            proof {
                lemma_suffix_after_last_none(base@, '.');
            }
            Option::None
        },
    }
}

/// The White_Space code points: what trimming treats as whitespace.
pub open spec fn is_space_char(c: char) -> bool {
    c == '\u{9}' || c == '\u{A}' || c == '\u{B}' || c == '\u{C}' || c == '\u{D}' || c == ' '
        || c == '\u{85}' || c == '\u{A0}' || c == '\u{1680}' || c == '\u{2000}' || c
        == '\u{2001}' || c == '\u{2002}' || c == '\u{2003}' || c == '\u{2004}' || c
        == '\u{2005}' || c == '\u{2006}' || c == '\u{2007}' || c == '\u{2008}' || c
        == '\u{2009}' || c == '\u{200A}' || c == '\u{2028}' || c == '\u{2029}' || c
        == '\u{202F}' || c == '\u{205F}' || c == '\u{3000}'
}

/// Whether every character of `s` is whitespace; true of the empty string.
pub open spec fn is_blank_spec(s: Seq<char>) -> bool {
    forall|i: int| 0 <= i < s.len() ==> is_space_char(s[i])
}

/// Executable test for one whitespace character.
fn is_space(c: char) -> (r: bool)
    ensures
        r == is_space_char(c),
{
    c == '\u{9}' || c == '\u{A}' || c == '\u{B}' || c == '\u{C}' || c == '\u{D}' || c == ' '
        || c == '\u{85}' || c == '\u{A0}' || c == '\u{1680}' || c == '\u{2000}' || c
        == '\u{2001}' || c == '\u{2002}' || c == '\u{2003}' || c == '\u{2004}' || c
        == '\u{2005}' || c == '\u{2006}' || c == '\u{2007}' || c == '\u{2008}' || c
        == '\u{2009}' || c == '\u{200A}' || c == '\u{2028}' || c == '\u{2029}' || c
        == '\u{202F}' || c == '\u{205F}' || c == '\u{3000}'
}

/// Whether the string is empty or all whitespace.
pub fn is_blank(s: &str) -> (r: bool)
    ensures
        r == is_blank_spec(s@),
{
    let n = s.unicode_len();
    let mut i: usize = 0;
    while i < n
        invariant
            i <= n,
            n == s@.len(),
            forall|j: int| 0 <= j < i ==> is_space_char(s@[j]),
        decreases n - i,
    {
        let ch = s.get_char(i);
        if !is_space(ch) {
            return false;
        }
        i = i + 1;
    }
    true
}

/// Views of a sequence of strings.
pub open spec fn views_of(names: Seq<String>) -> Seq<Seq<char>> {
    names.map_values(|s: String| s@)
}

/// Whether some string in `names` has view `x`.
pub open spec fn seq_contains_str(names: Seq<String>, x: Seq<char>) -> bool {
    exists|i: int| 0 <= i < names.len() && names[i]@ == x
}

/// Linear search for a name.
pub fn names_contain(names: &Vec<String>, x: &String) -> (r: bool)
    ensures
        r == seq_contains_str(names@, x@),
{
    let mut i: usize = 0;
    while i < names.len()
        invariant
            i <= names@.len(),
            forall|j: int| 0 <= j < i ==> names@[j]@ != x@,
        decreases names@.len() - i,
    {
        if names[i].eq(x) {
            return true;
        }
        i = i + 1;
    }
    false
}

/// The strings of `v` joined with `sep` between them (left-recursive).
pub open spec fn join_spec(v: Seq<Seq<char>>, sep: Seq<char>) -> Seq<char>
    decreases v.len(),
{
    if v.len() == 0 {
        Seq::empty()
    } else if v.len() == 1 {
        v[0]
    } else {
        join_spec(v.drop_last(), sep) + sep + v.last()
    }
}

/// Join the strings of `v` with a comma between them.
pub fn join_comma(v: &Vec<String>) -> (r: String)
    ensures
        r@ == join_spec(views_of(v@), ","@),
{
    let mut out = String::new();
    let mut i: usize = 0;
    while i < v.len()
        invariant
            i <= v@.len(),
            out@ == join_spec(views_of(v@).subrange(0, i as int), ","@),
        decreases v@.len() - i,
    {
        if i > 0 {
            out.append(",");
        }
        out.append(v[i].as_str());
        proof {
            let pre = views_of(v@).subrange(0, i as int);
            let cur = views_of(v@).subrange(0, i + 1 as int);
            assert(cur.drop_last() =~= pre);
            assert(cur.last() == v@[i as int]@);
            if i == 0 {
                assert(out@ =~= join_spec(cur, ","@));
            } else {
                assert(out@ =~= join_spec(cur, ","@));
            }
        }
        i = i + 1;
    }
    proof {
        assert(views_of(v@).subrange(0, v@.len() as int) =~= views_of(v@));
    }
    out
}

} // verus!
