//! Character-level text helpers shared by the parsers of the crate.
//!
//! Strings are modelled by their view, the sequence of their Unicode scalar
//! values. The helpers here give the meaning of `str::trim`, prefix and
//! suffix tests, and the ordering that `str` comparison uses (byte-wise UTF-8
//! order, which is the order of code points).

use vstd::prelude::*;

verus! {

broadcast use vstd::string::group_string_axioms;

/// Whether `c` has the Unicode `White_Space` property (the meaning of
/// `char::is_whitespace`).
pub open spec fn is_ws(c: char) -> bool {
    let u = c as int;
    ||| (0x9 <= u && u <= 0xd)
    ||| u == 0x20
    ||| u == 0x85
    ||| u == 0xa0
    ||| u == 0x1680
    ||| (0x2000 <= u && u <= 0x200a)
    ||| u == 0x2028
    ||| u == 0x2029
    ||| u == 0x202f
    ||| u == 0x205f
    ||| u == 0x3000
}

/// Executable whitespace test.
pub fn is_whitespace_char(c: char) -> (result: bool)
    ensures
        result == is_ws(c),
{
    ('\u{9}' <= c && c <= '\u{d}') || c == ' ' || c == '\u{85}' || c == '\u{a0}' || c == '\u{1680}'
        || ('\u{2000}' <= c && c <= '\u{200a}') || c == '\u{2028}' || c == '\u{2029}' || c
        == '\u{202f}' || c == '\u{205f}' || c == '\u{3000}'
}

/// `s` without its leading whitespace.
pub open spec fn trim_start(s: Seq<char>) -> Seq<char>
    decreases s.len(),
{
    if s.len() > 0 && is_ws(s[0]) {
        trim_start(s.drop_first())
    } else {
        s
    }
}

/// `s` without its trailing whitespace.
pub open spec fn trim_end(s: Seq<char>) -> Seq<char>
    decreases s.len(),
{
    if s.len() > 0 && is_ws(s.last()) {
        trim_end(s.drop_last())
    } else {
        s
    }
}

/// `s` without leading and trailing whitespace (the meaning of `str::trim`).
pub open spec fn trim(s: Seq<char>) -> Seq<char> {
    trim_end(trim_start(s))
}

/// `s` without its leading occurrences of `c` (`str::trim_start_matches`).
pub open spec fn trim_start_char(s: Seq<char>, c: char) -> Seq<char>
    decreases s.len(),
{
    if s.len() > 0 && s[0] == c {
        trim_start_char(s.drop_first(), c)
    } else {
        s
    }
}

/// `s` without its trailing occurrences of `c` (`str::trim_end_matches`).
pub open spec fn trim_end_char(s: Seq<char>, c: char) -> Seq<char>
    decreases s.len(),
{
    if s.len() > 0 && s.last() == c {
        trim_end_char(s.drop_last(), c)
    } else {
        s
    }
}

/// Trimming trailing occurrences of `c` leaves no trailing `c`, so a
/// second trim changes nothing.
pub proof fn lemma_trim_end_char_idempotent(s: Seq<char>, c: char)
    ensures
        !(trim_end_char(s, c).len() > 0 && trim_end_char(s, c).last() == c),
        trim_end_char(trim_end_char(s, c), c) == trim_end_char(s, c),
    decreases s.len(),
{
    if s.len() > 0 && s.last() == c {
        lemma_trim_end_char_idempotent(s.drop_last(), c);
    }
}

/// Whether `s` begins with `prefix`.
pub open spec fn starts_with(s: Seq<char>, prefix: Seq<char>) -> bool {
    prefix.len() <= s.len() && s.subrange(0, prefix.len() as int) == prefix
}

/// Whether `s` ends with `suffix`.
pub open spec fn ends_with(s: Seq<char>, suffix: Seq<char>) -> bool {
    suffix.len() <= s.len() && s.subrange(s.len() - suffix.len(), s.len() as int) == suffix
}

/// Strict lexicographic order on code points, the order of `str` comparison.
pub open spec fn chars_lt(a: Seq<char>, b: Seq<char>) -> bool
    decreases a.len(),
{
    if a.len() == 0 {
        b.len() > 0
    } else if b.len() == 0 {
        false
    } else if a[0] != b[0] {
        (a[0] as int) < (b[0] as int)
    } else {
        chars_lt(a.drop_first(), b.drop_first())
    }
}

/// ASCII lower-casing of a character (`char::to_ascii_lowercase`).
pub open spec fn ascii_lower(c: char) -> int {
    if 0x41 <= (c as int) && (c as int) <= 0x5a {
        (c as int) + 0x20
    } else {
        c as int
    }
}

/// Equality up to ASCII case (`str::eq_ignore_ascii_case`).
pub open spec fn eq_ignore_ascii_case(a: Seq<char>, b: Seq<char>) -> bool {
    a.len() == b.len() && forall|i: int| 0 <= i < a.len() ==> ascii_lower(#[trigger] a[i])
        == ascii_lower(b[i])
}

/// Whether `c` is an ASCII decimal digit.
pub open spec fn is_ascii_digit(c: char) -> bool {
    0x30 <= (c as int) && (c as int) <= 0x39
}

/// The characters of a string, in order.
pub fn chars_of(s: &str) -> (result: Vec<char>)
    ensures
        result@ == s@,
{
    let mut out: Vec<char> = Vec::new();
    for c in it: s.chars()
        invariant
            it.seq() == s@,
            out@.len() == it.index(),
            forall|k: int| 0 <= k < it.index() ==> out@[k] == s@[k],
    {
        out.push(c);
    }
    assert(out@ == s@);
    out
}

/// Append one character to a string (`String::push`).
#[verifier::external_body]
pub(crate) fn push_char(s: &mut String, c: char)
    ensures
        final(s)@ == old(s)@.push(c),
{
    s.push(c);
}

/// The string made of the characters `chars[from..to]`.
pub fn string_from_chars(chars: &Vec<char>, from: usize, to: usize) -> (result: String)
    requires
        from <= to <= chars@.len(),
    ensures
        result@ == chars@.subrange(from as int, to as int),
{
    let mut out = String::new();
    let mut i = from;
    while i < to
        invariant
            from <= i <= to <= chars@.len(),
            out@ == chars@.subrange(from as int, i as int),
        decreases to - i,
    {
        push_char(&mut out, chars[i]);
        proof {
            assert(chars@.subrange(from as int, i + 1) == chars@.subrange(from as int, i as int).push(
                chars@[i as int],
            ));
        }
        i = i + 1;
    }
    out
}

/// Index of the first character of `chars[from..to]` that is not whitespace
/// (or `to`): `chars[result..to]` is `chars[from..to]` with leading
/// whitespace removed.
pub fn skip_leading_ws(chars: &Vec<char>, from: usize, to: usize) -> (result: usize)
    requires
        from <= to <= chars@.len(),
    ensures
        from <= result <= to,
        chars@.subrange(result as int, to as int) == trim_start(
            chars@.subrange(from as int, to as int),
        ),
{
    let ghost s = chars@.subrange(from as int, to as int);
    let mut i = from;
    while i < to && is_whitespace_char(chars[i])
        invariant
            from <= i <= to <= chars@.len(),
            s == chars@.subrange(from as int, to as int),
            trim_start(s) == trim_start(chars@.subrange(i as int, to as int)),
        decreases to - i,
    {
        proof {
            let t = chars@.subrange(i as int, to as int);
            assert(t.drop_first() == chars@.subrange(i + 1, to as int));
            assert(t[0] == chars@[i as int]);
        }
        i = i + 1;
    }
    proof {
        let t = chars@.subrange(i as int, to as int);
        if i < to {
            assert(t[0] == chars@[i as int]);
        }
    }
    i
}

/// Index just after the last character of `chars[from..to]` that is not
/// whitespace (or `from`): `chars[from..result]` is `chars[from..to]` with
/// trailing whitespace removed.
pub fn skip_trailing_ws(chars: &Vec<char>, from: usize, to: usize) -> (result: usize)
    requires
        from <= to <= chars@.len(),
    ensures
        from <= result <= to,
        chars@.subrange(from as int, result as int) == trim_end(
            chars@.subrange(from as int, to as int),
        ),
{
    let ghost s = chars@.subrange(from as int, to as int);
    let mut j = to;
    while j > from && is_whitespace_char(chars[j - 1])
        invariant
            from <= j <= to <= chars@.len(),
            s == chars@.subrange(from as int, to as int),
            trim_end(s) == trim_end(chars@.subrange(from as int, j as int)),
        decreases j - from,
    {
        proof {
            let t = chars@.subrange(from as int, j as int);
            assert(t.drop_last() == chars@.subrange(from as int, j - 1));
            assert(t.last() == chars@[j - 1]);
        }
        j = j - 1;
    }
    proof {
        let t = chars@.subrange(from as int, j as int);
        if j > from {
            assert(t.last() == chars@[j - 1]);
        }
    }
    j
}

/// Bounds of `str::trim` applied to `chars[from..to]`.
pub fn trim_bounds(chars: &Vec<char>, from: usize, to: usize) -> (result: (usize, usize))
    requires
        from <= to <= chars@.len(),
    ensures
        from <= result.0 <= result.1 <= to,
        chars@.subrange(result.0 as int, result.1 as int) == trim(
            chars@.subrange(from as int, to as int),
        ),
{
    let a = skip_leading_ws(chars, from, to);
    let b = skip_trailing_ws(chars, a, to);
    (a, b)
}

/// Whether two character sequences are equal.
pub fn chars_eq(a: &Vec<char>, b: &Vec<char>) -> (result: bool)
    ensures
        result == (a@ == b@),
{
    if a.len() != b.len() {
        return false;
    }
    let mut i: usize = 0;
    while i < a.len()
        invariant
            a@.len() == b@.len(),
            i <= a@.len(),
            forall|k: int| 0 <= k < i ==> a@[k] == b@[k],
        decreases a@.len() - i,
    {
        if a[i] != b[i] {
            return false;
        }
        i = i + 1;
    }
    assert(a@ == b@);
    true
}

/// Whether two strings have the same characters (`str` equality).
pub fn str_eq(a: &str, b: &str) -> (result: bool)
    ensures
        result == (a@ == b@),
{
    let ca = chars_of(a);
    let cb = chars_of(b);
    chars_eq(&ca, &cb)
}

/// Outcome of a three-way comparison of character sequences.
#[derive(Copy, Clone, Debug, PartialEq, Eq, Structural)]
pub enum CharsOrder {
    Less,
    Equal,
    Greater,
}

proof fn lemma_chars_lt_skip(a: Seq<char>, b: Seq<char>, i: int)
    requires
        0 <= i < a.len(),
        i < b.len(),
        a[i] == b[i],
    ensures
        chars_lt(a.skip(i), b.skip(i)) == chars_lt(a.skip(i + 1), b.skip(i + 1)),
{
    assert(a.skip(i).drop_first() == a.skip(i + 1));
    assert(b.skip(i).drop_first() == b.skip(i + 1));
    assert(a.skip(i)[0] == a[i]);
    assert(b.skip(i)[0] == b[i]);
}

/// `chars_lt` is irreflexive.
pub proof fn lemma_chars_lt_irreflexive(a: Seq<char>)
    ensures
        !chars_lt(a, a),
    decreases a.len(),
{
    if a.len() > 0 {
        lemma_chars_lt_irreflexive(a.drop_first());
    }
}

/// `chars_lt` is asymmetric.
pub proof fn lemma_chars_lt_asymmetric(a: Seq<char>, b: Seq<char>)
    ensures
        !(chars_lt(a, b) && chars_lt(b, a)),
    decreases a.len(),
{
    if a.len() > 0 && b.len() > 0 && a[0] == b[0] {
        lemma_chars_lt_asymmetric(a.drop_first(), b.drop_first());
    }
}

/// `chars_lt` is transitive.
pub proof fn lemma_chars_lt_transitive(a: Seq<char>, b: Seq<char>, c: Seq<char>)
    requires
        chars_lt(a, b),
        chars_lt(b, c),
    ensures
        chars_lt(a, c),
    decreases a.len(),
{
    if a.len() > 0 && b.len() > 0 && c.len() > 0 && a[0] == b[0] && b[0] == c[0] {
        lemma_chars_lt_transitive(a.drop_first(), b.drop_first(), c.drop_first());
    }
}

/// Distinct sequences are ordered one way or the other.
pub proof fn lemma_chars_lt_total(a: Seq<char>, b: Seq<char>)
    requires
        a != b,
    ensures
        chars_lt(a, b) || chars_lt(b, a),
    decreases a.len(),
{
    if a.len() > 0 && b.len() > 0 {
        if a[0] == b[0] {
            if a.drop_first() == b.drop_first() {
                assert(a == seq![a[0]] + a.drop_first());
                assert(b == seq![b[0]] + b.drop_first());
            }
            lemma_chars_lt_total(a.drop_first(), b.drop_first());
        } else {
            assert((a[0] as int) != (b[0] as int));
        }
    } else if a.len() == 0 && b.len() == 0 {
        assert(a == b);
    }
}

/// Three-way lexicographic comparison of character sequences.
pub fn compare_chars(a: &Vec<char>, b: &Vec<char>) -> (result: CharsOrder)
    ensures
        result == CharsOrder::Less <==> chars_lt(a@, b@),
        result == CharsOrder::Equal <==> a@ == b@,
        result == CharsOrder::Greater <==> chars_lt(b@, a@),
{
    proof {
        lemma_chars_lt_asymmetric(a@, b@);
        lemma_chars_lt_irreflexive(a@);
        if a@ != b@ {
            lemma_chars_lt_total(a@, b@);
        }
    }
    let mut i: usize = 0;
    assert(a@.skip(0) == a@);
    assert(b@.skip(0) == b@);
    while i < a.len() && i < b.len()
        invariant
            i <= a@.len(),
            i <= b@.len(),
            a@.take(i as int) == b@.take(i as int),
            chars_lt(a@, b@) == chars_lt(a@.skip(i as int), b@.skip(i as int)),
            chars_lt(b@, a@) == chars_lt(b@.skip(i as int), a@.skip(i as int)),
        decreases a@.len() - i,
    {
        if a[i] != b[i] {
            proof {
                assert(a@.skip(i as int)[0] == a@[i as int]);
                assert(b@.skip(i as int)[0] == b@[i as int]);
                assert(a@[i as int] != b@[i as int]);
                assert(a@.skip(i as int).len() > 0 && b@.skip(i as int).len() > 0);
                assert(chars_lt(a@.skip(i as int), b@.skip(i as int)) == ((a@[i as int] as int) < (
                b@[i as int] as int)));
                assert(chars_lt(b@.skip(i as int), a@.skip(i as int)) == ((b@[i as int] as int) < (
                a@[i as int] as int)));
                assert(a@ != b@) by {
                    if a@ == b@ {
                        assert(a@[i as int] == b@[i as int]);
                    }
                }
            }
            if a[i] < b[i] {
                return CharsOrder::Less;
            } else {
                return CharsOrder::Greater;
            }
        }
        proof {
            lemma_chars_lt_skip(a@, b@, i as int);
            lemma_chars_lt_skip(b@, a@, i as int);
            assert(a@.take(i + 1) == a@.take(i as int).push(a@[i as int]));
            assert(b@.take(i + 1) == b@.take(i as int).push(b@[i as int]));
        }
        i = i + 1;
    }
    if a.len() == b.len() {
        proof {
            assert(a@ == a@.take(i as int));
            assert(b@ == b@.take(i as int));
        }
        CharsOrder::Equal
    } else if a.len() < b.len() {
        proof {
            assert(a@.skip(i as int).len() == 0);
            assert(a@ == a@.take(i as int));
            assert(a@ != b@);
        }
        CharsOrder::Less
    } else {
        proof {
            assert(b@.skip(i as int).len() == 0);
            assert(b@ == b@.take(i as int));
            assert(a@ != b@);
        }
        CharsOrder::Greater
    }
}

/// Whether a line holds no entity: it is empty or a lone `[` or `]`.
pub open spec fn is_structural_chars(s: Seq<char>) -> bool {
    s.len() == 0 || s == seq!['['] || s == seq![']']
}

/// Index of the first character of `chars[from..to]` that differs from `c`
/// (or `to`): `chars[result..to]` is `chars[from..to]` without its leading
/// occurrences of `c`.
pub fn skip_leading_char(chars: &Vec<char>, from: usize, to: usize, c: char) -> (result: usize)
    requires
        from <= to <= chars@.len(),
    ensures
        from <= result <= to,
        chars@.subrange(result as int, to as int) == trim_start_char(
            chars@.subrange(from as int, to as int),
            c,
        ),
{
    let mut i = from;
    while i < to && chars[i] == c
        invariant
            from <= i <= to <= chars@.len(),
            trim_start_char(chars@.subrange(from as int, to as int), c) == trim_start_char(
                chars@.subrange(i as int, to as int),
                c,
            ),
        decreases to - i,
    {
        proof {
            let t = chars@.subrange(i as int, to as int);
            assert(t.drop_first() == chars@.subrange(i + 1, to as int));
            assert(t[0] == chars@[i as int]);
        }
        i = i + 1;
    }
    proof {
        let t = chars@.subrange(i as int, to as int);
        if i < to {
            assert(t[0] == chars@[i as int]);
        }
    }
    i
}

/// Whether `chars[from..to]` holds no entity: it is empty or a lone `[` or
/// `]`.
pub fn is_structural_range(chars: &Vec<char>, from: usize, to: usize) -> (result: bool)
    requires
        from <= to <= chars@.len(),
    ensures
        result == is_structural_chars(chars@.subrange(from as int, to as int)),
{
    let ghost s = chars@.subrange(from as int, to as int);
    if from == to {
        return true;
    }
    if to - from != 1 {
        proof {
            assert(s.len() != 1);
            assert(s != seq!['[']);
            assert(s != seq![']']);
        }
        return false;
    }
    let c = chars[from];
    proof {
        assert(s[0] == c);
        assert(s == seq![c]);
    }
    c == '[' || c == ']'
}

/// The character sequences of a sequence of strings.
pub open spec fn string_views(v: Seq<String>) -> Seq<Seq<char>> {
    v.map_values(|s: String| s@)
}

/// The sequences are in strictly increasing order (so also distinct).
pub open spec fn strictly_sorted_chars(s: Seq<Seq<char>>) -> bool {
    forall|i: int, j: int| 0 <= i < j < s.len() ==> chars_lt(#[trigger] s[i], #[trigger] s[j])
}

/// Position of `x` in a strictly sorted vector of strings: the first index
/// whose string is not smaller than `x`, and whether that string equals `x`.
fn find_string_position(out: &Vec<String>, x: &String) -> (result: (usize, bool))
    requires
        strictly_sorted_chars(string_views(out@)),
    ensures
        result.0 <= out@.len(),
        forall|q: int| 0 <= q < result.0 ==> chars_lt(#[trigger] string_views(out@)[q], x@),
        result.1 ==> result.0 < out@.len() && string_views(out@)[result.0 as int] == x@,
        !result.1 ==> result.0 == out@.len() || chars_lt(x@, string_views(out@)[result.0 as int]),
{
    let xc = chars_of(x.as_str());
    let mut p: usize = 0;
    while p < out.len()
        invariant
            p <= out@.len(),
            xc@ == x@,
            forall|q: int| 0 <= q < p ==> chars_lt(#[trigger] string_views(out@)[q], x@),
        decreases out@.len() - p,
    {
        let oc = chars_of(out[p].as_str());
        match compare_chars(&oc, &xc) {
            CharsOrder::Less => {
                p = p + 1;
            },
            CharsOrder::Equal => {
                return (p, true);
            },
            CharsOrder::Greater => {
                return (p, false);
            },
        }
    }
    (p, false)
}

/// Sort strings and drop duplicates (`sort_unstable` followed by `dedup`):
/// the result is strictly increasing and holds the same strings.
pub fn sort_dedup_strings(v: Vec<String>) -> (result: Vec<String>)
    ensures
        strictly_sorted_chars(string_views(result@)),
        string_views(result@).to_set() == string_views(v@).to_set(),
{
    let ghost all = string_views(v@);
    let mut out: Vec<String> = Vec::new();
    let mut i: usize = 0;
    let mut rest = v;
    let mut reversed: Vec<String> = Vec::new();
    // Take the strings in order by reversing once.
    while rest.len() > 0
        invariant
            rest@.len() <= all.len(),
            string_views(rest@) == all.take(rest@.len() as int),
            string_views(reversed@) == all.skip(rest@.len() as int).reverse(),
        decreases rest@.len(),
    {
        let ghost n = rest@.len();
        let ghost r0 = reversed@;
        let ghost rest0 = rest@;
        let x = rest.pop().unwrap();
        reversed.push(x);
        proof {
            assert(x == rest0[n - 1]);
            assert(string_views(rest0)[n - 1] == all[n - 1]);
            assert(x@ == all[n - 1]);
            assert(reversed@ == r0.push(x));
            assert(string_views(rest@) =~= all.take(n - 1));
            let lhs = string_views(reversed@);
            let rhs = all.skip(n - 1).reverse();
            assert(string_views(r0).len() == r0.len());
            assert(all.skip(n as int).reverse().len() == all.len() - n);
            assert(r0.len() == all.len() - n);
            assert(lhs.len() == rhs.len());
            assert forall|j: int| 0 <= j < lhs.len() implies lhs[j] == rhs[j] by {
                if j < r0.len() {
                    assert(lhs[j] == string_views(r0)[j]);
                    assert(string_views(r0)[j] == all.skip(n as int).reverse()[j]);
                }
            }
            assert(lhs =~= rhs);
        }
    }
    assert(all.skip(0) == all);
    while reversed.len() > 0
        invariant
            reversed@.len() <= all.len(),
            string_views(reversed@) == all.skip(all.len() - reversed@.len()).reverse(),
            strictly_sorted_chars(string_views(out@)),
            string_views(out@).to_set() == all.take(all.len() - reversed@.len()).to_set(),
        decreases reversed@.len(),
    {
        let ghost n = reversed@.len();
        let ghost k = all.len() - n;
        let ghost rev0 = reversed@;
        let x = reversed.pop().unwrap();
        proof {
            assert(x == rev0[n - 1]);
            assert(string_views(rev0)[n - 1] == all.skip(k).reverse()[n - 1]);
            assert(all.skip(k).reverse()[n - 1] == all.skip(k)[0]);
            assert(x@ == all[k]);
            assert(reversed@ == rev0.drop_last());
            let lhs = string_views(reversed@);
            let rhs = all.skip(k + 1).reverse();
            assert(reversed@.len() == n - 1);
            assert(all.skip(k + 1).len() == all.len() - (k + 1));
            assert(lhs.len() == rhs.len());
            assert forall|j: int| 0 <= j < lhs.len() implies lhs[j] == rhs[j] by {
                assert(lhs[j] == string_views(rev0)[j]);
                assert(string_views(rev0)[j] == all.skip(k).reverse()[j]);
            }
            assert(lhs =~= rhs);
            assert(all.take(k + 1) == all.take(k).push(x@));
            all.take(k).lemma_push_to_set_commute(x@);
        }
        let (p, found) = find_string_position(&out, &x);
        let ghost views0 = string_views(out@);
        if found {
            proof {
                assert(views0[p as int] == x@);
                assert(views0.to_set().insert(x@) =~= views0.to_set());
            }
        } else {
            proof {
                if p < views0.len() {
                    assert(chars_lt(x@, views0[p as int]));
                }
            }
            out.insert(p, x);
            proof {
                let views1 = string_views(out@);
                assert(views1 =~= views0.insert(p as int, x@));
                assert forall|a: int, b: int| 0 <= a < b < views1.len() implies chars_lt(
                    #[trigger] views1[a],
                    #[trigger] views1[b],
                ) by {
                    if b < p {
                        assert(views1[a] == views0[a] && views1[b] == views0[b]);
                    } else if b == p {
                        assert(views1[a] == views0[a]);
                    } else if a < p {
                        assert(views1[a] == views0[a] && views1[b] == views0[b - 1]);
                        assert(chars_lt(views0[a], x@));
                        if b - 1 > p {
                            assert(chars_lt(views0[p as int], views0[b - 1]));
                            lemma_chars_lt_transitive(x@, views0[p as int], views0[b - 1]);
                        }
                        lemma_chars_lt_transitive(views0[a], x@, views0[b - 1]);
                    } else if a == p {
                        assert(views1[b] == views0[b - 1]);
                        if b - 1 > p {
                            assert(chars_lt(views0[p as int], views0[b - 1]));
                            lemma_chars_lt_transitive(x@, views0[p as int], views0[b - 1]);
                        }
                    } else {
                        assert(views1[a] == views0[a - 1] && views1[b] == views0[b - 1]);
                    }
                }
                views0.insert_ensures(p as int, x@);
                assert(views1.to_set() =~= views0.to_set().insert(x@)) by {
                    assert forall|y: Seq<char>| views1.to_set().contains(y) <==> views0.to_set().insert(
                        x@,
                    ).contains(y) by {
                        if views1.contains(y) {
                            let q = choose|q: int| 0 <= q < views1.len() && views1[q] == y;
                            if q < p {
                                assert(views0[q] == y);
                            } else if q > p {
                                assert(views0[q - 1] == y);
                            }
                        }
                        if views0.contains(y) {
                            let q = choose|q: int| 0 <= q < views0.len() && views0[q] == y;
                            if q < p {
                                assert(views1[q] == y);
                            } else {
                                assert(views1[q + 1] == y);
                            }
                        }
                        if y == x@ {
                            assert(views1[p as int] == y);
                        }
                    }
                }
            }
        }
    }
    assert(all.take(all.len() as int) == all);
    out
}

/// Code point of the ASCII lower-case form of `c`.
pub fn ascii_lower_code(c: char) -> (result: u32)
    ensures
        result as int == ascii_lower(c),
{
    let u = c as u32;
    if 'A' <= c && c <= 'Z' {
        u + 0x20
    } else {
        u
    }
}

} // verus!
