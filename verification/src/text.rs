//! Character-level text machinery shared by the payload and configuration
//! parsers: whitespace trimming, separator search, splitting, and the
//! lexicographic order used to sort bindings.

use vstd::prelude::*;
use vstd::string::*;

verus! {

// ---------------------------------------------------------------------------
// Whitespace and trimming
// ---------------------------------------------------------------------------

/// The blank characters trimmed around every parsed field.
pub open spec fn is_space(c: char) -> bool {
    c == ' ' || c == '\t' || c == '\n' || c == '\r'
}

pub(crate) fn char_is_space(c: char) -> (r: bool)
    ensures
        r == is_space(c),
{
    c == ' ' || c == '\t' || c == '\n' || c == '\r'
}

/// `s` with its leading blanks removed.
pub open spec fn trim_start(s: Seq<char>) -> Seq<char>
    decreases s.len(),
{
    if s.len() > 0 && is_space(s[0]) {
        trim_start(s.drop_first())
    } else {
        s
    }
}

/// `s` with its trailing blanks removed.
pub open spec fn trim_end(s: Seq<char>) -> Seq<char>
    decreases s.len(),
{
    if s.len() > 0 && is_space(s.last()) {
        trim_end(s.drop_last())
    } else {
        s
    }
}

/// `s` with both leading and trailing blanks removed.
pub open spec fn trimmed(s: Seq<char>) -> Seq<char> {
    trim_end(trim_start(s))
}

proof fn lemma_trim_start_skip(s: Seq<char>, i: int)
    requires
        0 <= i <= s.len(),
        forall|j: int| 0 <= j < i ==> is_space(s[j]),
        i < s.len() ==> !is_space(s[i]),
    ensures
        trim_start(s) == s.skip(i),
    decreases i,
{
    if i == 0 {
        assert(s.skip(0) =~= s);
    } else {
        assert(is_space(s[0]));
        lemma_trim_start_skip(s.drop_first(), i - 1);
        assert(s.drop_first().skip(i - 1) =~= s.skip(i));
    }
}

proof fn lemma_trim_end_take(s: Seq<char>, b: int)
    requires
        0 <= b <= s.len(),
        forall|j: int| b <= j < s.len() ==> is_space(s[j]),
        b > 0 ==> !is_space(s[b - 1]),
    ensures
        trim_end(s) == s.take(b),
    decreases s.len(),
{
    if b == s.len() {
        assert(s.take(b) =~= s);
    } else {
        assert(is_space(s.last()));
        lemma_trim_end_take(s.drop_last(), b);
        assert(s.drop_last().take(b) =~= s.take(b));
    }
}

// ---------------------------------------------------------------------------
// Conversions between &str / String and Vec<char>
// ---------------------------------------------------------------------------

/// The characters of `s`, in order, as a vector.
pub(crate) fn to_chars(s: &str) -> (r: Vec<char>)
    ensures
        r@ == s@,
{
    let n = s.unicode_len();
    let mut r: Vec<char> = Vec::new();
    let mut i: usize = 0;
    while i < n
        invariant
            n == s@.len(),
            i <= n,
            r@ == s@.take(i as int),
        decreases n - i,
    {
        r.push(s.get_char(i));
        i = i + 1;
        proof {
            assert(s@.take(i - 1).push(s@[i - 1]) =~= s@.take(i as int));
        }
    }
    proof {
        assert(s@.take(n as int) =~= s@);
    }
    r
}

/// Relies on `String::push`: appends exactly one character to the string.
#[verifier::external_body]
fn push_char(s: &mut String, c: char)
    ensures
        final(s)@ == old(s)@.push(c),
{
    s.push(c);
}

/// A string holding exactly the characters of `v`, in order.
pub(crate) fn chars_to_string(v: &Vec<char>) -> (r: String)
    ensures
        r@ == v@,
{
    let mut r = String::new();
    let mut i: usize = 0;
    while i < v.len()
        invariant
            i <= v.len(),
            r@ == v@.take(i as int),
        decreases v.len() - i,
    {
        push_char(&mut r, v[i]);
        i = i + 1;
        proof {
            assert(v@.take(i - 1).push(v@[i - 1]) =~= v@.take(i as int));
        }
    }
    proof {
        assert(v@.take(v@.len() as int) =~= v@);
    }
    r
}

/// The characters of `v` from `from` (inclusive) to `to` (exclusive).
pub(crate) fn sub_chars(v: &Vec<char>, from: usize, to: usize) -> (r: Vec<char>)
    requires
        from <= to <= v.len(),
    ensures
        r@ == v@.subrange(from as int, to as int),
{
    let mut r: Vec<char> = Vec::new();
    let mut i: usize = from;
    while i < to
        invariant
            from <= i <= to <= v.len(),
            r@ == v@.subrange(from as int, i as int),
        decreases to - i,
    {
        r.push(v[i]);
        i = i + 1;
        proof {
            assert(v@.subrange(from as int, i - 1).push(v@[i - 1]) =~= v@.subrange(
                from as int,
                i as int,
            ));
        }
    }
    r
}

/// Whether two strings hold the same characters.
pub(crate) fn str_eq(a: &str, b: &str) -> (r: bool)
    ensures
        r == (a@ == b@),
{
    let na = a.unicode_len();
    let nb = b.unicode_len();
    if na != nb {
        return false;
    }
    let mut i: usize = 0;
    while i < na
        invariant
            na == a@.len(),
            na == b@.len(),
            i <= na,
            forall|j: int| 0 <= j < i ==> a@[j] == b@[j],
        decreases na - i,
    {
        if a.get_char(i) != b.get_char(i) {
            return false;
        }
        i = i + 1;
    }
    proof {
        assert(a@ =~= b@);
    }
    true
}

// ---------------------------------------------------------------------------
// Searching and trimming vectors of characters
// ---------------------------------------------------------------------------

/// The first occurrence of `sep` in `v` at or after `from`, if any.
pub(crate) fn find_char(v: &Vec<char>, sep: char, from: usize) -> (r: Option<usize>)
    requires
        from <= v.len(),
    ensures
        match r {
            Some(i) => {
                &&& from <= i < v.len()
                &&& v@[i as int] == sep
                &&& forall|j: int| from <= j < i ==> v@[j] != sep
            },
            None => forall|j: int| from <= j < v@.len() ==> v@[j] != sep,
        },
{
    let mut i: usize = from;
    while i < v.len()
        invariant
            from <= i <= v.len(),
            forall|j: int| from <= j < i ==> v@[j] != sep,
        decreases v.len() - i,
    {
        if v[i] == sep {
            return Some(i);
        }
        i = i + 1;
    }
    None
}

// ---------------------------------------------------------------------------
// Splitting on a separator character
// ---------------------------------------------------------------------------

/// `s` split on every occurrence of `sep`.  Splitting the empty sequence
/// gives one empty field, as `str::split` does.
pub open spec fn split_full(s: Seq<char>, sep: char) -> Seq<Seq<char>>
    decreases s.len(),
{
    if s.len() == 0 {
        seq![s]
    } else if s[0] == sep {
        seq![Seq::<char>::empty()] + split_full(s.drop_first(), sep)
    } else {
        let rest = split_full(s.drop_first(), sep);
        seq![seq![s[0]] + rest[0]] + rest.drop_first()
    }
}

/// `s` split on `sep` into at most `n` fields; the last field keeps any
/// remaining separators, as `str::splitn` does.
pub open spec fn splitn(s: Seq<char>, sep: char, n: nat) -> Seq<Seq<char>>
    decreases s.len(),
{
    if n <= 1 || s.len() == 0 {
        seq![s]
    } else if s[0] == sep {
        seq![Seq::<char>::empty()] + splitn(s.drop_first(), sep, (n - 1) as nat)
    } else {
        let rest = splitn(s.drop_first(), sep, n);
        seq![seq![s[0]] + rest[0]] + rest.drop_first()
    }
}

pub(crate) proof fn lemma_split_full_len(s: Seq<char>, sep: char)
    ensures
        split_full(s, sep).len() >= 1,
    decreases s.len(),
{
    if s.len() > 0 {
        lemma_split_full_len(s.drop_first(), sep);
    }
}

pub(crate) proof fn lemma_splitn_len(s: Seq<char>, sep: char, n: nat)
    ensures
        splitn(s, sep, n).len() >= 1,
        n >= 1 ==> splitn(s, sep, n).len() <= n,
    decreases s.len(),
{
    if !(n <= 1 || s.len() == 0) {
        lemma_splitn_len(s.drop_first(), sep, (n - 1) as nat);
        lemma_splitn_len(s.drop_first(), sep, n);
    }
}

/// Splitting a sequence that holds no separator gives that sequence alone.
pub(crate) proof fn lemma_split_full_no_sep(s: Seq<char>, sep: char)
    requires
        forall|j: int| 0 <= j < s.len() ==> s[j] != sep,
    ensures
        split_full(s, sep) == seq![s],
    decreases s.len(),
{
    if s.len() > 0 {
        lemma_split_full_no_sep(s.drop_first(), sep);
        assert(seq![s[0]] + s.drop_first() =~= s);
        assert(seq![seq![s[0]] + s.drop_first()] =~= seq![s]);
    }
}

pub(crate) proof fn lemma_splitn_no_sep(s: Seq<char>, sep: char, n: nat)
    requires
        forall|j: int| 0 <= j < s.len() ==> s[j] != sep,
    ensures
        splitn(s, sep, n) == seq![s],
    decreases s.len(),
{
    if !(n <= 1 || s.len() == 0) {
        lemma_splitn_no_sep(s.drop_first(), sep, n);
        assert(seq![s[0]] + s.drop_first() =~= s);
        assert(seq![seq![s[0]] + s.drop_first()] =~= seq![s]);
    }
}

/// Splitting at the first occurrence of the separator: the field before it,
/// then the split of what follows it.
pub(crate) proof fn lemma_split_full_at(s: Seq<char>, sep: char, i: int)
    requires
        0 <= i < s.len(),
        s[i] == sep,
        forall|j: int| 0 <= j < i ==> s[j] != sep,
    ensures
        split_full(s, sep) == seq![s.take(i)] + split_full(s.skip(i + 1), sep),
    decreases i,
{
    if i == 0 {
        assert(s.take(0) =~= Seq::<char>::empty());
        assert(s.skip(1) =~= s.drop_first());
    } else {
        let t = s.drop_first();
        lemma_split_full_at(t, sep, i - 1);
        lemma_split_full_len(t.skip(i), sep);
        let rest = split_full(t, sep);
        assert(rest[0] == t.take(i - 1));
        assert(seq![s[0]] + t.take(i - 1) =~= s.take(i));
        assert(rest.drop_first() =~= split_full(t.skip(i), sep));
        assert(t.skip(i) =~= s.skip(i + 1));
        assert(seq![seq![s[0]] + rest[0]] + rest.drop_first() =~= seq![s.take(i)] + split_full(
            s.skip(i + 1),
            sep,
        ));
    }
}

pub(crate) proof fn lemma_splitn_at(s: Seq<char>, sep: char, i: int, n: nat)
    requires
        n >= 2,
        0 <= i < s.len(),
        s[i] == sep,
        forall|j: int| 0 <= j < i ==> s[j] != sep,
    ensures
        splitn(s, sep, n) == seq![s.take(i)] + splitn(s.skip(i + 1), sep, (n - 1) as nat),
    decreases i,
{
    if i == 0 {
        assert(s.take(0) =~= Seq::<char>::empty());
        assert(s.skip(1) =~= s.drop_first());
    } else {
        let t = s.drop_first();
        lemma_splitn_at(t, sep, i - 1, n);
        lemma_splitn_len(t.skip(i), sep, (n - 1) as nat);
        let rest = splitn(t, sep, n);
        assert(rest[0] == t.take(i - 1));
        assert(seq![s[0]] + t.take(i - 1) =~= s.take(i));
        assert(rest.drop_first() =~= splitn(t.skip(i), sep, (n - 1) as nat));
        assert(t.skip(i) =~= s.skip(i + 1));
        assert(seq![seq![s[0]] + rest[0]] + rest.drop_first() =~= seq![s.take(i)] + splitn(
            s.skip(i + 1),
            sep,
            (n - 1) as nat,
        ));
    }
}

/// Bridges element access through `deep_view` on a vector of character
/// vectors to the plain views of its elements.
pub(crate) proof fn lemma_deep_view_index(v: &Vec<Vec<char>>, i: int)
    requires
        0 <= i < v@.len(),
    ensures
        v.deep_view().len() == v@.len(),
        v.deep_view()[i] == v@[i]@,
{
    assert(v@[i].deep_view() =~= v@[i]@);
}

/// All fields of `v` split on `sep`, as vectors of characters.
pub(crate) fn split_all(v: &Vec<char>, sep: char) -> (r: Vec<Vec<char>>)
    ensures
        r.deep_view() == split_full(v@, sep),
{
    let mut r: Vec<Vec<char>> = Vec::new();
    let mut start: usize = 0;
    let mut done = false;
    proof {
        assert(v@.skip(0) =~= v@);
        assert(r.deep_view() + split_full(v@, sep) =~~= split_full(v@, sep));
    }
    while !done
        invariant
            start <= v.len(),
            !done ==> split_full(v@, sep) == r.deep_view() + split_full(
                v@.skip(start as int),
                sep,
            ),
            done ==> split_full(v@, sep) == r.deep_view(),
        decreases v.len() - start + (if done { 0int } else { 1int }),
    {
        let ghost prev = r.deep_view();
        let ghost tail = v@.skip(start as int);
        match find_char(v, sep, start) {
            Some(i) => {
                let field = sub_chars(v, start, i);
                proof {
                    lemma_split_full_at(tail, sep, i - start);
                    assert(tail.take(i - start) =~= field@);
                    assert(tail.skip(i - start + 1) =~= v@.skip(i + 1));
                }
                r.push(field);
                proof {
                    assert(r.deep_view() =~~= prev.push(field@));
                    assert(prev + split_full(tail, sep) =~~= r.deep_view() + split_full(
                        v@.skip(i + 1),
                        sep,
                    ));
                }
                start = i + 1;
            },
            None => {
                let field = sub_chars(v, start, v.len());
                proof {
                    lemma_split_full_no_sep(tail, sep);
                    assert(tail =~= field@);
                }
                r.push(field);
                proof {
                    assert(r.deep_view() =~~= prev.push(field@));
                    assert(prev + split_full(tail, sep) =~~= r.deep_view());
                }
                done = true;
            },
        }
    }
    r
}

/// The characters of `v` with leading and trailing blanks removed.
pub(crate) fn trim_chars(v: &Vec<char>) -> (r: Vec<char>)
    ensures
        r@ == trimmed(v@),
{
    let n = v.len();
    let mut a: usize = 0;
    while a < n && char_is_space(v[a])
        invariant
            a <= n,
            n == v@.len(),
            forall|j: int| 0 <= j < a ==> is_space(v@[j]),
        decreases n - a,
    {
        a = a + 1;
    }
    proof {
        lemma_trim_start_skip(v@, a as int);
    }
    if a == n {
        proof {
            assert(v@.skip(n as int) =~= Seq::<char>::empty());
        }
        let r: Vec<char> = Vec::new();
        return r;
    }
    let mut b: usize = n;
    while b > 0 && char_is_space(v[b - 1])
        invariant
            b <= n,
            n == v@.len(),
            forall|j: int| b <= j < n ==> is_space(v@[j]),
        decreases b,
    {
        b = b - 1;
    }
    proof {
        // v[a] is not a blank, so the trailing run of blanks stops above a.
        assert(!(b <= a));
        let t = v@.skip(a as int);
        lemma_trim_end_take(t, b - a);
        assert(t.take(b - a) =~= v@.subrange(a as int, b as int));
    }
    sub_chars(v, a, b)
}

// ---------------------------------------------------------------------------
// Lexicographic order on character sequences
// ---------------------------------------------------------------------------

/// Lexicographic "at most" on character sequences, ordering characters by
/// their code points; this is the order `str` comparison gives.
pub open spec fn lex_le(a: Seq<char>, b: Seq<char>) -> bool
    decreases a.len(),
{
    if a.len() == 0 {
        true
    } else if b.len() == 0 {
        false
    } else if (a[0] as u32) < (b[0] as u32) {
        true
    } else if (a[0] as u32) > (b[0] as u32) {
        false
    } else {
        lex_le(a.drop_first(), b.drop_first())
    }
}

pub(crate) proof fn lemma_lex_le_total(a: Seq<char>, b: Seq<char>)
    ensures
        lex_le(a, b) || lex_le(b, a),
    decreases a.len(),
{
    if a.len() > 0 && b.len() > 0 && (a[0] as u32) == (b[0] as u32) {
        lemma_lex_le_total(a.drop_first(), b.drop_first());
    }
}

pub(crate) proof fn lemma_lex_le_antisymmetric(a: Seq<char>, b: Seq<char>)
    requires
        lex_le(a, b),
        lex_le(b, a),
    ensures
        a == b,
    decreases a.len(),
{
    if a.len() == 0 {
        assert(b.len() == 0);
        assert(a =~= b);
    } else {
        assert(b.len() > 0);
        assert((a[0] as u32) == (b[0] as u32));
        vstd::utf8::char_u32_cast(a[0], a[0] as u32);
        vstd::utf8::char_u32_cast(b[0], b[0] as u32);
        assert(a[0] == b[0]);
        lemma_lex_le_antisymmetric(a.drop_first(), b.drop_first());
        assert(a.len() == b.len());
        assert forall|i: int| 0 <= i < a.len() implies a[i] == b[i] by {
            if i > 0 {
                assert(a.drop_first()[i - 1] == b.drop_first()[i - 1]);
            }
        }
        assert(a =~= b);
    }
}

pub(crate) proof fn lemma_lex_le_transitive(a: Seq<char>, b: Seq<char>, c: Seq<char>)
    requires
        lex_le(a, b),
        lex_le(b, c),
    ensures
        lex_le(a, c),
    decreases a.len(),
{
    if a.len() > 0 && b.len() > 0 && c.len() > 0 && (a[0] as u32) == (b[0] as u32) && (b[0] as u32)
        == (c[0] as u32) {
        lemma_lex_le_transitive(a.drop_first(), b.drop_first(), c.drop_first());
    }
}

/// Whether `a` is at most `b` in lexicographic order.
pub(crate) fn lex_le_str(a: &str, b: &str) -> (r: bool)
    ensures
        r == lex_le(a@, b@),
{
    let na = a.unicode_len();
    let nb = b.unicode_len();
    let mut i: usize = 0;
    proof {
        assert(a@.skip(0) =~= a@);
        assert(b@.skip(0) =~= b@);
    }
    while i < na && i < nb
        invariant
            na == a@.len(),
            nb == b@.len(),
            i <= na,
            i <= nb,
            lex_le(a@, b@) == lex_le(a@.skip(i as int), b@.skip(i as int)),
        decreases na - i,
    {
        let ca = a.get_char(i);
        let cb = b.get_char(i);
        let ghost sa = a@.skip(i as int);
        let ghost sb = b@.skip(i as int);
        if (ca as u32) < (cb as u32) {
            proof {
                assert(lex_le(sa, sb));
            }
            return true;
        }
        if (ca as u32) > (cb as u32) {
            proof {
                assert(!lex_le(sa, sb));
            }
            return false;
        }
        proof {
            vstd::utf8::char_u32_cast(ca, ca as u32);
            vstd::utf8::char_u32_cast(cb, cb as u32);
            assert(sa[0] == sb[0]);
            assert(sa.drop_first() =~= a@.skip(i + 1));
            assert(sb.drop_first() =~= b@.skip(i + 1));
        }
        i = i + 1;
    }
    proof {
        if i == na {
            assert(a@.skip(i as int).len() == 0);
        } else {
            assert(b@.skip(i as int).len() == 0);
            assert(a@.skip(i as int).len() > 0);
        }
    }
    i == na
}

} // verus!
