//! Character-level helpers over `String` and `&str`, specified on `Seq<char>`.
use vstd::prelude::*;

verus! {

broadcast use vstd::string::group_string_axioms;

// ---------------------------------------------------------------------------
// Specifications
// ---------------------------------------------------------------------------

/// `p` is a prefix of `s`.
pub open spec fn is_prefix(p: Seq<char>, s: Seq<char>) -> bool {
    p.len() <= s.len() && s.take(p.len() as int) == p
}

/// `p` is a suffix of `s`.
pub open spec fn is_suffix(p: Seq<char>, s: Seq<char>) -> bool {
    p.len() <= s.len() && s.skip(s.len() - p.len()) == p
}

/// `p` occurs in `s` starting at index `i`.
pub open spec fn occurs_at(s: Seq<char>, p: Seq<char>, i: int) -> bool {
    0 <= i && i + p.len() <= s.len() && s.subrange(i, i + p.len()) == p
}

/// `p` occurs somewhere in `s`.
pub open spec fn contains_seq(s: Seq<char>, p: Seq<char>) -> bool {
    exists|i: int| occurs_at(s, p, i)
}

/// The characters that `char::is_whitespace` accepts (Unicode `White_Space`).
pub open spec fn is_white(c: char) -> bool {
    ||| '\u{9}' <= c <= '\u{d}'
    ||| c == ' '
    ||| c == '\u{85}'
    ||| c == '\u{a0}'
    ||| c == '\u{1680}'
    ||| '\u{2000}' <= c <= '\u{200a}'
    ||| c == '\u{2028}'
    ||| c == '\u{2029}'
    ||| c == '\u{202f}'
    ||| c == '\u{205f}'
    ||| c == '\u{3000}'
}

/// `s.trim()` is empty: every character is whitespace.
pub open spec fn is_blank(s: Seq<char>) -> bool {
    forall|i: int| 0 <= i < s.len() ==> is_white(#[trigger] s[i])
}

/// `s` with every non-overlapping occurrence of `p`, scanned from the left,
/// replaced by `r` (`str::replace` for a non-empty pattern).
pub open spec fn replace_all(s: Seq<char>, p: Seq<char>, r: Seq<char>) -> Seq<char>
    decreases s.len(),
{
    if s.len() == 0 || p.len() == 0 {
        s
    } else if is_prefix(p, s) {
        r + replace_all(s.skip(p.len() as int), p, r)
    } else {
        seq![s[0]] + replace_all(s.skip(1), p, r)
    }
}

/// Replacing a pattern that does not occur leaves the text as it is.
pub proof fn lemma_replace_all_absent(s: Seq<char>, p: Seq<char>, r: Seq<char>)
    requires
        !contains_seq(s, p),
    ensures
        replace_all(s, p, r) == s,
    decreases s.len(),
{
    if s.len() > 0 && p.len() > 0 {
        if is_prefix(p, s) {
            assert(s.subrange(0, p.len() as int) =~= s.take(p.len() as int));
            assert(occurs_at(s, p, 0));
        }
        let t = s.skip(1);
        assert(!contains_seq(t, p)) by {
            if contains_seq(t, p) {
                let k = choose|k: int| occurs_at(t, p, k);
                assert(s.subrange(k + 1, k + 1 + p.len()) =~= t.subrange(k, k + p.len()));
                assert(occurs_at(s, p, k + 1));
            }
        }
        lemma_replace_all_absent(t, p, r);
        assert(seq![s[0]] + t =~= s);
    }
}

/// Where no occurrence of the pattern straddles the joint of `x` and `y`,
/// replacing in `x + y` is replacing in each part.
pub proof fn lemma_replace_all_split(x: Seq<char>, y: Seq<char>, p: Seq<char>, r: Seq<char>)
    requires
        p.len() > 0,
        forall|k: int| 0 <= k < x.len() < k + p.len() ==> !occurs_at(x + y, p, k),
    ensures
        replace_all(x + y, p, r) == replace_all(x, p, r) + replace_all(y, p, r),
    decreases x.len(),
{
    let s = x + y;
    if x.len() == 0 {
        assert(s =~= y);
        assert(replace_all(x, p, r) == x);
        assert(x + replace_all(y, p, r) =~= replace_all(y, p, r));
    } else if is_prefix(p, s) {
        assert(s.subrange(0, p.len() as int) =~= s.take(p.len() as int));
        assert(occurs_at(s, p, 0));
        assert(p.len() <= x.len());
        assert(x.take(p.len() as int) =~= s.take(p.len() as int));
        let x2 = x.skip(p.len() as int);
        assert(s.skip(p.len() as int) =~= x2 + y);
        assert forall|k: int| 0 <= k < x2.len() < k + p.len() implies !occurs_at(x2 + y, p, k) by {
            if occurs_at(x2 + y, p, k) {
                assert((x2 + y).subrange(k, k + p.len()) =~= s.subrange(k + p.len(), k + p.len() + p.len()));
                assert(occurs_at(s, p, k + p.len()));
            }
        }
        lemma_replace_all_split(x2, y, p, r);
        assert(replace_all(x, p, r) == r + replace_all(x2, p, r));
        assert(r + replace_all(x2, p, r) + replace_all(y, p, r) =~= r + (replace_all(x2, p, r)
            + replace_all(y, p, r)));
    } else {
        assert(!is_prefix(p, x)) by {
            if is_prefix(p, x) {
                assert(s.take(p.len() as int) =~= x.take(p.len() as int));
            }
        }
        let x2 = x.skip(1);
        assert(s.skip(1) =~= x2 + y);
        assert forall|k: int| 0 <= k < x2.len() < k + p.len() implies !occurs_at(x2 + y, p, k) by {
            if occurs_at(x2 + y, p, k) {
                assert((x2 + y).subrange(k, k + p.len()) =~= s.subrange(k + 1, k + 1 + p.len()));
                assert(occurs_at(s, p, k + 1));
            }
        }
        lemma_replace_all_split(x2, y, p, r);
        assert(s[0] == x[0]);
        assert(replace_all(x, p, r) == seq![x[0]] + replace_all(x2, p, r));
        assert(seq![x[0]] + replace_all(x2, p, r) + replace_all(y, p, r) =~= seq![x[0]] + (
        replace_all(x2, p, r) + replace_all(y, p, r)));
    }
}

/// An occurrence of `q` that no occurrence of the pattern overlaps is still
/// in the text after every occurrence of the pattern is replaced.
pub proof fn lemma_replace_all_keeps(s: Seq<char>, p: Seq<char>, r: Seq<char>, q: Seq<char>, k: int)
    requires
        p.len() > 0,
        occurs_at(s, q, k),
        forall|m: int| occurs_at(s, p, m) ==> m + p.len() <= k || k + q.len() <= m,
    ensures
        contains_seq(replace_all(s, p, r), q),
{
    let l = s.take(k);
    let rest = s.skip(k);
    let m2 = s.skip(k + q.len());
    assert(s.subrange(k, k + q.len()) == q);
    assert(rest =~= q + m2);
    assert(l + rest =~= s);
    assert forall|m: int| 0 <= m < l.len() < m + p.len() implies !occurs_at(l + (q + m2), p, m) by {
        assert(l + (q + m2) == s);
    }
    lemma_replace_all_split(l, q + m2, p, r);
    assert forall|m: int| 0 <= m < q.len() < m + p.len() implies !occurs_at(q + m2, p, m) by {
        if occurs_at(q + m2, p, m) {
            assert(s.subrange(k + m, k + m + p.len()) =~= (q + m2).subrange(m, m + p.len()));
            assert(occurs_at(s, p, k + m));
        }
    }
    lemma_replace_all_split(q, m2, p, r);
    assert(!contains_seq(q, p)) by {
        if contains_seq(q, p) {
            let m = choose|m: int| occurs_at(q, p, m);
            assert(s.subrange(k + m, k + m + p.len()) =~= q.subrange(m, m + p.len()));
            assert(occurs_at(s, p, k + m));
        }
    }
    lemma_replace_all_absent(q, p, r);
    let out = replace_all(s, p, r);
    let rl = replace_all(l, p, r);
    assert(out == rl + (q + replace_all(m2, p, r)));
    assert(out.subrange(rl.len() as int, (rl.len() + q.len()) as int) =~= q);
    assert(occurs_at(out, q, rl.len() as int));
}

/// Once a pattern occurs in a text, replacing every occurrence of it leaves
/// the replacement in the text.
pub proof fn lemma_replace_all_holds_replacement(s: Seq<char>, p: Seq<char>, r: Seq<char>)
    requires
        p.len() > 0,
        contains_seq(s, p),
    ensures
        contains_seq(replace_all(s, p, r), r),
    decreases s.len(),
{
    let out = replace_all(s, p, r);
    if is_prefix(p, s) {
        assert(out.subrange(0, r.len() as int) =~= r);
        assert(occurs_at(out, r, 0));
    } else {
        let i = choose|i: int| occurs_at(s, p, i);
        if i == 0 {
            assert(s.take(p.len() as int) =~= s.subrange(0, p.len() as int));
        }
        let t = s.skip(1);
        assert(t.subrange(i - 1, i - 1 + p.len()) =~= s.subrange(i, i + p.len()));
        assert(occurs_at(t, p, i - 1));
        lemma_replace_all_holds_replacement(t, p, r);
        let rest = replace_all(t, p, r);
        let j = choose|j: int| occurs_at(rest, r, j);
        assert(out == seq![s[0]] + rest);
        assert(out.subrange(j + 1, j + 1 + r.len()) =~= rest.subrange(j, j + r.len()));
        assert(occurs_at(out, r, j + 1));
    }
}

/// The decimal digit for `d < 10`.
pub open spec fn digit(d: nat) -> char {
    if d == 0 { '0' }
    else if d == 1 { '1' }
    else if d == 2 { '2' }
    else if d == 3 { '3' }
    else if d == 4 { '4' }
    else if d == 5 { '5' }
    else if d == 6 { '6' }
    else if d == 7 { '7' }
    else if d == 8 { '8' }
    else { '9' }
}

/// The decimal representation of `n`, without leading zeros.
pub open spec fn decimal(n: nat) -> Seq<char>
    decreases n,
{
    if n < 10 {
        seq![digit(n)]
    } else {
        decimal(n / 10).push(digit(n % 10))
    }
}

/// The parts joined with `sep` between consecutive parts.
pub open spec fn join(parts: Seq<Seq<char>>, sep: Seq<char>) -> Seq<char>
    decreases parts.len(),
{
    if parts.len() == 0 {
        Seq::empty()
    } else if parts.len() == 1 {
        parts[0]
    } else {
        join(parts.drop_last(), sep) + sep + parts.last()
    }
}

/// The views of a sequence of strings.
pub open spec fn views(v: Seq<String>) -> Seq<Seq<char>> {
    v.map_values(|s: String| s@)
}

/// Lexicographic order on characters by code point: the order of `String`'s `Ord`.
pub open spec fn seq_lt(a: Seq<char>, b: Seq<char>) -> bool
    decreases a.len(),
{
    if b.len() == 0 {
        false
    } else if a.len() == 0 {
        true
    } else if a[0] != b[0] {
        (a[0] as u32) < (b[0] as u32)
    } else {
        seq_lt(a.skip(1), b.skip(1))
    }
}

/// `a` is not after `b`.
pub open spec fn seq_le(a: Seq<char>, b: Seq<char>) -> bool {
    a == b || seq_lt(a, b)
}

// ---------------------------------------------------------------------------
// Trusted std call
// ---------------------------------------------------------------------------

/// Appends one character to a string. This calls `String::push`, of which vstd
/// gives no specification; the contract is what its documentation says.
#[verifier::external_body]
pub fn push_char(s: &mut String, c: char)
    ensures
        final(s)@ == old(s)@.push(c),
{
    s.push(c);
}

// ---------------------------------------------------------------------------
// Executable helpers
// ---------------------------------------------------------------------------

/// The characters of `s`, in order.
pub fn chars_of(s: &str) -> (v: Vec<char>)
    ensures
        v@ == s@,
{
    let mut v: Vec<char> = Vec::new();
    for c in it: s.chars()
        invariant
            v@ == it.seq().take(it.index() as int),
    {
        v.push(c);
    }
    v
}

/// An owned copy of `s`.
pub fn owned(s: &str) -> (r: String)
    ensures
        r@ == s@,
{
    s.to_owned()
}

/// Appends `t` to `s`.
pub fn push_str(s: &mut String, t: &str)
    ensures
        final(s)@ == old(s)@ + t@,
{
    s.append(t);
}

/// Appends the characters `v[from..to]` to `s`.
pub fn push_chars(s: &mut String, v: &Vec<char>, from: usize, to: usize)
    requires
        from <= to <= v.len(),
    ensures
        final(s)@ == old(s)@ + v@.subrange(from as int, to as int),
{
    let mut i = from;
    while i < to
        invariant
            from <= i <= to <= v.len(),
            s@ == old(s)@ + v@.subrange(from as int, i as int),
        decreases to - i,
    {
        push_char(s, v[i]);
        i += 1;
        assert(v@.subrange(from as int, i as int) == v@.subrange(from as int, i - 1).push(v@[i - 1]));
    }
}

/// A string holding the characters `v[from..to]`.
pub fn string_of(v: &Vec<char>, from: usize, to: usize) -> (s: String)
    requires
        from <= to <= v.len(),
    ensures
        s@ == v@.subrange(from as int, to as int),
{
    let mut s = String::new();
    push_chars(&mut s, v, from, to);
    s
}

/// Character equality of two strings.
pub fn str_eq(a: &str, b: &str) -> (r: bool)
    ensures
        r == (a@ == b@),
{
    let x = chars_of(a);
    let y = chars_of(b);
    if x.len() != y.len() {
        return false;
    }
    let mut i: usize = 0;
    while i < x.len()
        invariant
            x@ == a@,
            y@ == b@,
            x.len() == y.len(),
            i <= x.len(),
            forall|k: int| 0 <= k < i ==> x@[k] == y@[k],
        decreases x.len() - i,
    {
        if x[i] != y[i] {
            return false;
        }
        i += 1;
    }
    assert(x@ =~= y@);
    true
}

/// Does `p` occur in `v` at index `i`?
pub fn occurs_at_exec(v: &Vec<char>, p: &Vec<char>, i: usize) -> (r: bool)
    ensures
        r == occurs_at(v@, p@, i as int),
{
    if i > v.len() || p.len() > v.len() - i {
        return false;
    }
    let mut k: usize = 0;
    while k < p.len()
        invariant
            i + p.len() <= v.len(),
            k <= p.len(),
            forall|j: int| 0 <= j < k ==> v@[i + j] == p@[j],
        decreases p.len() - k,
    {
        if v[i + k] != p[k] {
            assert(v@.subrange(i as int, i + p.len())[k as int] != p@[k as int]);
            return false;
        }
        k += 1;
    }
    assert(v@.subrange(i as int, i + p.len()) =~= p@);
    true
}

/// `p` is a prefix of `s`.
pub fn has_prefix(s: &str, p: &str) -> (r: bool)
    ensures
        r == is_prefix(p@, s@),
{
    let v = chars_of(s);
    let q = chars_of(p);
    let r = occurs_at_exec(&v, &q, 0);
    assert(v@.subrange(0, q@.len() as int) =~= v@.take(q@.len() as int));
    r
}

/// `p` is a suffix of `s`.
pub fn has_suffix(s: &str, p: &str) -> (r: bool)
    ensures
        r == is_suffix(p@, s@),
{
    let v = chars_of(s);
    let q = chars_of(p);
    if q.len() > v.len() {
        return false;
    }
    let r = occurs_at_exec(&v, &q, v.len() - q.len());
    assert(v@.subrange(v.len() - q.len(), v@.len() as int) =~= v@.skip(v.len() - q.len()));
    r
}

/// The first index at which `p` occurs in `v`, if any.
pub fn find_seq(v: &Vec<char>, p: &Vec<char>) -> (r: Option<usize>)
    ensures
        r matches Some(i) ==> occurs_at(v@, p@, i as int) && forall|j: int|
            0 <= j < i ==> !occurs_at(v@, p@, j),
        r is None ==> !contains_seq(v@, p@),
{
    let mut i: usize = 0;
    while i < v.len()
        invariant
            i <= v.len(),
            forall|j: int| 0 <= j < i ==> !occurs_at(v@, p@, j),
        decreases v.len() - i,
    {
        if occurs_at_exec(v, p, i) {
            return Some(i);
        }
        i += 1;
    }
    if occurs_at_exec(v, p, i) {
        return Some(i);
    }
    assert forall|j: int| !occurs_at(v@, p@, j) by {
        if 0 <= j && j <= v.len() {
        }
    }
    None
}

/// Does `p` occur in `s`?
pub fn contains_str(s: &str, p: &str) -> (r: bool)
    ensures
        r == contains_seq(s@, p@),
{
    let v = chars_of(s);
    let q = chars_of(p);
    find_seq(&v, &q).is_some()
}

/// The first index of `c` in `v`, if any.
pub fn find_char(v: &Vec<char>, c: char) -> (r: Option<usize>)
    ensures
        r matches Some(i) ==> i < v.len() && v@[i as int] == c && forall|j: int|
            0 <= j < i ==> v@[j] != c,
        r is None ==> forall|j: int| 0 <= j < v.len() ==> v@[j] != c,
{
    let mut i: usize = 0;
    while i < v.len()
        invariant
            i <= v.len(),
            forall|j: int| 0 <= j < i ==> v@[j] != c,
        decreases v.len() - i,
    {
        if v[i] == c {
            return Some(i);
        }
        i += 1;
    }
    None
}

/// The last index of `c` in `v`, if any.
pub fn rfind_char(v: &Vec<char>, c: char) -> (r: Option<usize>)
    ensures
        r matches Some(i) ==> i < v.len() && v@[i as int] == c && forall|j: int|
            i < j < v.len() ==> v@[j] != c,
        r is None ==> forall|j: int| 0 <= j < v.len() ==> v@[j] != c,
{
    let mut i: usize = v.len();
    while i > 0
        invariant
            i <= v.len(),
            forall|j: int| i <= j < v.len() ==> v@[j] != c,
        decreases i,
    {
        if v[i - 1] == c {
            return Some(i - 1);
        }
        i -= 1;
    }
    None
}

/// Is every character of `v[from..to]` whitespace?
pub fn blank_range(v: &Vec<char>, from: usize, to: usize) -> (r: bool)
    requires
        from <= to <= v.len(),
    ensures
        r == is_blank(v@.subrange(from as int, to as int)),
{
    let mut i = from;
    while i < to
        invariant
            from <= i <= to <= v.len(),
            forall|j: int| from <= j < i ==> is_white(v@[j]),
        decreases to - i,
    {
        if !is_white_exec(v[i]) {
            assert(!is_white(v@.subrange(from as int, to as int)[i - from]));
            return false;
        }
        i += 1;
    }
    assert forall|j: int| 0 <= j < to - from implies is_white(
        #[trigger] v@.subrange(from as int, to as int)[j],
    ) by {
        assert(v@.subrange(from as int, to as int)[j] == v@[from + j]);
    }
    true
}

/// `s.trim().is_empty()`.
pub fn str_is_blank(s: &str) -> (r: bool)
    ensures
        r == is_blank(s@),
{
    let v = chars_of(s);
    let r = blank_range(&v, 0, v.len());
    assert(v@.subrange(0, v@.len() as int) =~= v@);
    r
}

/// `char::is_whitespace`.
pub fn is_white_exec(c: char) -> (r: bool)
    ensures
        r == is_white(c),
{
    ('\u{9}' <= c && c <= '\u{d}') || c == ' ' || c == '\u{85}' || c == '\u{a0}' || c
        == '\u{1680}' || ('\u{2000}' <= c && c <= '\u{200a}') || c == '\u{2028}' || c
        == '\u{2029}' || c == '\u{202f}' || c == '\u{205f}' || c == '\u{3000}'
}

/// Appends the decimal representation of `n`.
pub fn push_decimal(s: &mut String, n: u64)
    ensures
        final(s)@ == old(s)@ + decimal(n as nat),
    decreases n,
{
    if n >= 10 {
        push_decimal(s, n / 10);
    }
    let d = n % 10;
    let c = if d == 0 { '0' }
        else if d == 1 { '1' }
        else if d == 2 { '2' }
        else if d == 3 { '3' }
        else if d == 4 { '4' }
        else if d == 5 { '5' }
        else if d == 6 { '6' }
        else if d == 7 { '7' }
        else if d == 8 { '8' }
        else { '9' };
    push_char(s, c);
    proof {
        if n < 10 {
            assert(old(s)@.push(c) =~= old(s)@ + seq![digit(n as nat)]);
        } else {
            assert(decimal(n as nat) == decimal((n / 10) as nat).push(digit((n % 10) as nat)));
        }
    }
}

/// The decimal representation of `n` (`n.to_string()`).
pub fn decimal_string(n: u64) -> (s: String)
    ensures
        s@ == decimal(n as nat),
{
    let mut s = String::new();
    push_decimal(&mut s, n);
    assert(s@ =~= decimal(n as nat));
    s
}

/// The strings of `parts` joined with `sep` (`parts.join(sep)`).
pub fn join_strings(parts: &Vec<String>, sep: &str) -> (s: String)
    ensures
        s@ == join(views(parts@), sep@),
{
    let mut s = String::new();
    let mut i: usize = 0;
    while i < parts.len()
        invariant
            i <= parts.len(),
            s@ == join(views(parts@.take(i as int)), sep@),
        decreases parts.len() - i,
    {
        let ghost before = s@;
        if i > 0 {
            push_str(&mut s, sep);
        }
        push_str(&mut s, parts[i].as_str());
        proof {
            let a = views(parts@.take(i + 1));
            assert(a.drop_last() =~= views(parts@.take(i as int)));
            if i == 0 {
                assert(before =~= Seq::<char>::empty());
                assert(s@ =~= a[0]);
            }
        }
        i += 1;
    }
    assert(parts@.take(parts.len() as int) =~= parts@);
    s
}

/// Strict lexicographic comparison of two strings by code point.
pub fn str_lt(a: &str, b: &str) -> (r: bool)
    ensures
        r == seq_lt(a@, b@),
{
    let x = chars_of(a);
    let y = chars_of(b);
    assert(x@.skip(0) =~= x@);
    assert(y@.skip(0) =~= y@);
    chars_lt(&x, &y, 0)
}

/// Strict lexicographic comparison of `x[i..]` and `y[i..]`.
pub fn chars_lt(x: &Vec<char>, y: &Vec<char>, i: usize) -> (r: bool)
    requires
        i <= x.len(),
        i <= y.len(),
    ensures
        r == seq_lt(x@.skip(i as int), y@.skip(i as int)),
    decreases x.len() - i,
{
    if i == y.len() {
        return false;
    }
    if i == x.len() {
        return true;
    }
    assert(x@.skip(i as int)[0] == x@[i as int]);
    assert(y@.skip(i as int)[0] == y@[i as int]);
    if x[i] != y[i] {
        return (x[i] as u32) < (y[i] as u32);
    }
    assert(x@.skip(i as int).skip(1) =~= x@.skip(i + 1));
    assert(y@.skip(i as int).skip(1) =~= y@.skip(i + 1));
    chars_lt(x, y, i + 1)
}

/// `s` with every trailing occurrence of `p` removed (`str::trim_end_matches`).
pub open spec fn trim_end_all(s: Seq<char>, p: Seq<char>) -> Seq<char>
    decreases s.len(),
{
    if p.len() > 0 && is_suffix(p, s) {
        trim_end_all(s.take(s.len() - p.len()), p)
    } else {
        s
    }
}

/// `s` with every trailing occurrence of `p` removed.
pub fn trim_end_matches(s: &str, p: &str) -> (r: String)
    ensures
        r@ == trim_end_all(s@, p@),
{
    let v = chars_of(s);
    let q = chars_of(p);
    let mut end = v.len();
    assert(v@.take(v.len() as int) =~= v@);
    while q.len() > 0 && q.len() <= end && occurs_at_exec(&v, &q, end - q.len())
        invariant
            q@ == p@,
            v@ == s@,
            end <= v.len(),
            trim_end_all(v@.take(end as int), q@) == trim_end_all(s@, p@),
        decreases end,
    {
        proof {
            let t = v@.take(end as int);
            assert(v@.subrange(end - q.len(), end as int) =~= t.skip(t.len() - q.len()));
            assert(t.take(t.len() - q.len()) =~= v@.take(end - q.len()));
        }
        end = end - q.len();
    }
    proof {
        let t = v@.take(end as int);
        if q.len() > 0 && q.len() <= end {
            assert(v@.subrange(end - q.len(), end as int) =~= t.skip(t.len() - q.len()));
        }
        assert(v@.take(v.len() as int) =~= v@);
    }
    let r = string_of(&v, 0, end);
    assert(v@.subrange(0, end as int) =~= v@.take(end as int));
    r
}

/// `s` without the prefix `p`, if `s` starts with `p` (`str::strip_prefix`).
pub fn strip_prefix(s: &str, p: &str) -> (r: Option<String>)
    ensures
        match r {
            Some(t) => is_prefix(p@, s@) && t@ == s@.skip(p@.len() as int),
            None => !is_prefix(p@, s@),
        },
{
    if has_prefix(s, p) {
        let v = chars_of(s);
        let n = chars_of(p).len();
        let t = string_of(&v, n, v.len());
        assert(v@.subrange(n as int, v@.len() as int) =~= s@.skip(n as int));
        Some(t)
    } else {
        None
    }
}

/// `s` without leading whitespace.
pub open spec fn trim_front(s: Seq<char>) -> Seq<char>
    decreases s.len(),
{
    if s.len() > 0 && is_white(s[0]) {
        trim_front(s.skip(1))
    } else {
        s
    }
}

/// `s` without trailing whitespace.
pub open spec fn trim_back(s: Seq<char>) -> Seq<char>
    decreases s.len(),
{
    if s.len() > 0 && is_white(s.last()) {
        trim_back(s.drop_last())
    } else {
        s
    }
}

/// `s` without leading and trailing whitespace (`str::trim`).
pub open spec fn trimmed(s: Seq<char>) -> Seq<char> {
    trim_back(trim_front(s))
}

/// The bounds of `v[from..to]` with whitespace trimmed from both ends.
pub fn trim_bounds(v: &Vec<char>, from: usize, to: usize) -> (r: (usize, usize))
    requires
        from <= to <= v.len(),
    ensures
        from <= r.0 <= r.1 <= to,
        v@.subrange(r.0 as int, r.1 as int) == trimmed(v@.subrange(from as int, to as int)),
{
    let mut i = from;
    while i < to && is_white_exec(v[i])
        invariant
            from <= i <= to <= v.len(),
            trim_front(v@.subrange(i as int, to as int)) == trim_front(
                v@.subrange(from as int, to as int),
            ),
        decreases to - i,
    {
        assert(v@.subrange(i as int, to as int).skip(1) =~= v@.subrange(i + 1, to as int));
        i += 1;
    }
    proof {
        if i < to {
            assert(v@.subrange(i as int, to as int)[0] == v@[i as int]);
        } else {
            assert(v@.subrange(i as int, to as int).len() == 0);
        }
    }
    let mut j = to;
    while j > i && is_white_exec(v[j - 1])
        invariant
            from <= i <= j <= to <= v.len(),
            trim_back(v@.subrange(i as int, j as int)) == trimmed(v@.subrange(from as int, to as int)),
        decreases j,
    {
        assert(v@.subrange(i as int, j as int).drop_last() =~= v@.subrange(i as int, j - 1));
        j -= 1;
    }
    proof {
        if j > i {
            assert(v@.subrange(i as int, j as int).last() == v@[j - 1]);
        }
    }
    (i, j)
}

/// Every occurrence of `p` in `v` replaced by `r`, scanning from the left.
pub fn replace_all_chars(v: &Vec<char>, p: &Vec<char>, r: &Vec<char>) -> (out: Vec<char>)
    requires
        p.len() > 0,
    ensures
        out@ == replace_all(v@, p@, r@),
{
    let mut out: Vec<char> = Vec::new();
    let mut i: usize = 0;
    assert(v@.skip(0) =~= v@);
    assert(out@ + replace_all(v@, p@, r@) =~= replace_all(v@, p@, r@));
    while i < v.len()
        invariant
            p.len() > 0,
            i <= v.len(),
            out@ + replace_all(v@.skip(i as int), p@, r@) == replace_all(v@, p@, r@),
        decreases v.len() - i,
    {
        let ghost rest = v@.skip(i as int);
        if occurs_at_exec(v, p, i) {
            proof {
                assert(rest.take(p@.len() as int) =~= v@.subrange(i as int, i + p@.len()));
                assert(rest.skip(p@.len() as int) =~= v@.skip(i + p@.len()));
            }
            let mut k: usize = 0;
            let ghost before = out@;
            while k < r.len()
                invariant
                    k <= r.len(),
                    out@ == before + r@.take(k as int),
                decreases r.len() - k,
            {
                out.push(r[k]);
                k += 1;
                assert(out@ =~= before + r@.take(k as int));
            }
            assert(r@.take(r@.len() as int) =~= r@);
            assert(out@ + replace_all(v@.skip(i + p@.len()), p@, r@) =~= before + replace_all(
                rest,
                p@,
                r@,
            ));
            i += p.len();
        } else {
            proof {
                if is_prefix(p@, rest) {
                    assert(rest.take(p@.len() as int) =~= v@.subrange(i as int, i + p@.len()));
                }
                assert(rest.skip(1) =~= v@.skip(i + 1));
                assert(rest[0] == v@[i as int]);
            }
            let ghost before = out@;
            out.push(v[i]);
            assert(out@ + replace_all(v@.skip(i + 1), p@, r@) =~= before + replace_all(rest, p@, r@));
            i += 1;
        }
    }
    proof {
        assert(v@.skip(i as int).len() == 0);
        assert(out@ + replace_all(v@.skip(i as int), p@, r@) =~= out@);
    }
    out
}

/// `s` without the suffix `p`, if `s` ends with `p` (`str::strip_suffix`).
pub fn strip_suffix(s: &str, p: &str) -> (r: Option<String>)
    ensures
        match r {
            Some(t) => is_suffix(p@, s@) && t@ == s@.take(s@.len() - p@.len()),
            None => !is_suffix(p@, s@),
        },
{
    if has_suffix(s, p) {
        let v = chars_of(s);
        let n = chars_of(p).len();
        let t = string_of(&v, 0, v.len() - n);
        assert(v@.subrange(0, v@.len() - n) =~= s@.take(s@.len() - p@.len()));
        Some(t)
    } else {
        None
    }
}

} // verus!
