//! Character-sequence utilities: the string operations that the front end
//! and the code generator are built from, each stated over `Seq<char>`.
use vstd::prelude::*;

verus! {

// ---------------------------------------------------------------------
// Conversions between strings and character vectors
// ---------------------------------------------------------------------

/// The characters of a string slice, in order.
pub fn chars_of(s: &str) -> (v: Vec<char>)
    ensures
        v@ == s@,
{
    let mut v: Vec<char> = Vec::new();
    for c in it: s.chars()
        invariant
            v@ == it.seq().take(it.index() as int),
    {
        v.push(c);
    }
    v
}

/// Builds a `String` holding exactly the given characters
/// (`FromIterator<char>` for `String`, which appends each character in order).
#[verifier::external_body]
pub(crate) fn string_of(v: &Vec<char>) -> (s: String)
    ensures
        s@ == v@,
{
    v.iter().collect()
}


/// Copies `s[a..b]` into a new vector.
pub fn slice_of(s: &Vec<char>, a: usize, b: usize) -> (r: Vec<char>)
    requires
        a <= b <= s@.len(),
    ensures
        r@ == s@.subrange(a as int, b as int),
{
    let mut r: Vec<char> = Vec::new();
    let mut i = a;
    while i < b
        invariant
            a <= i <= b <= s@.len(),
            r@ == s@.subrange(a as int, i as int),
        decreases b - i,
    {
        r.push(s[i]);
        i = i + 1;
        assert(r@ =~= s@.subrange(a as int, i as int));
    }
    r
}

/// Appends all of `t` to `out`.
pub fn append_chars(out: &mut Vec<char>, t: &Vec<char>)
    ensures
        final(out)@ == old(out)@ + t@,
{
    let mut i: usize = 0;
    while i < t.len()
        invariant
            i <= t@.len(),
            out@ == old(out)@ + t@.subrange(0, i as int),
        decreases t@.len() - i,
    {
        out.push(t[i]);
        i = i + 1;
        assert(out@ =~= old(out)@ + t@.subrange(0, i as int));
    }
    assert(t@.subrange(0, t@.len() as int) =~= t@);
}

/// Appends the characters of `t` to `out`.
pub fn append_str(out: &mut Vec<char>, t: &str)
    ensures
        final(out)@ == old(out)@ + t@,
{
    let v = chars_of(t);
    append_chars(out, &v);
}

/// Whether two character vectors are equal.
pub fn chars_eq(a: &Vec<char>, b: &Vec<char>) -> (r: bool)
    ensures
        r == (a@ == b@),
{
    if a.len() != b.len() {
        return false;
    }
    let mut i: usize = 0;
    while i < a.len()
        invariant
            a@.len() == b@.len(),
            i <= a@.len(),
            forall|j: int| 0 <= j < i ==> a@[j] == b@[j],
        decreases a@.len() - i,
    {
        if a[i] != b[i] {
            return false;
        }
        i = i + 1;
    }
    assert(a@ =~= b@);
    true
}

// ---------------------------------------------------------------------
// Whitespace
// ---------------------------------------------------------------------

/// The characters with the Unicode `White_Space` property, which is what
/// `char::is_whitespace` (and so `str::trim`) tests.
pub open spec fn is_space(c: char) -> bool {
    let u = c as u32;
    ||| 0x9 <= u <= 0xD
    ||| u == 0x20
    ||| u == 0x85
    ||| u == 0xA0
    ||| u == 0x1680
    ||| 0x2000 <= u <= 0x200A
    ||| u == 0x2028
    ||| u == 0x2029
    ||| u == 0x202F
    ||| u == 0x205F
    ||| u == 0x3000
}

/// Tests `is_space`.
pub fn is_space_char(c: char) -> (b: bool)
    ensures
        b == is_space(c),
{
    let u = c as u32;
    (0x9 <= u && u <= 0xD) || u == 0x20 || u == 0x85 || u == 0xA0 || u == 0x1680 || (0x2000 <= u
        && u <= 0x200A) || u == 0x2028 || u == 0x2029 || u == 0x202F || u == 0x205F || u == 0x3000
}

/// `s` without its leading white space.
pub open spec fn trim_start_spec(s: Seq<char>) -> Seq<char>
    decreases s.len(),
{
    if s.len() > 0 && is_space(s[0]) {
        trim_start_spec(s.drop_first())
    } else {
        s
    }
}

/// `s` without its trailing white space.
pub open spec fn trim_end_spec(s: Seq<char>) -> Seq<char>
    decreases s.len(),
{
    if s.len() > 0 && is_space(s.last()) {
        trim_end_spec(s.drop_last())
    } else {
        s
    }
}

/// `s` without leading and trailing white space (`str::trim`).
pub open spec fn trim_spec(s: Seq<char>) -> Seq<char> {
    trim_end_spec(trim_start_spec(s))
}

/// Leading white space removed from `a + b` where `a` is not all white
/// space is that removed from `a`, followed by `b`; where `a` is all white
/// space, it is that removed from `b`.
pub proof fn lemma_trim_start_concat(a: Seq<char>, b: Seq<char>)
    ensures
        trim_start_spec(a).len() > 0 ==> trim_start_spec(a + b) == trim_start_spec(a) + b,
        trim_start_spec(a).len() == 0 ==> trim_start_spec(a + b) == trim_start_spec(b),
    decreases a.len(),
{
    if a.len() == 0 {
        assert(a + b =~= b);
    } else if is_space(a[0]) {
        assert((a + b)[0] == a[0]);
        assert((a + b).drop_first() =~= a.drop_first() + b);
        lemma_trim_start_concat(a.drop_first(), b);
    } else {
        assert((a + b)[0] == a[0]);
    }
}

/// Trailing white space removed from `a + b` where `b` is not all white
/// space is `a` followed by that removed from `b`; where `b` is all white
/// space, it is that removed from `a`.
pub proof fn lemma_trim_end_concat(a: Seq<char>, b: Seq<char>)
    ensures
        trim_end_spec(b).len() > 0 ==> trim_end_spec(a + b) == a + trim_end_spec(b),
        trim_end_spec(b).len() == 0 ==> trim_end_spec(a + b) == trim_end_spec(a),
    decreases b.len(),
{
    if b.len() == 0 {
        assert(a + b =~= a);
    } else if is_space(b.last()) {
        assert((a + b).last() == b.last());
        assert((a + b).drop_last() =~= a + b.drop_last());
        lemma_trim_end_concat(a, b.drop_last());
    } else {
        assert((a + b).last() == b.last());
    }
}

/// Removing leading white space leaves a suffix that does not start with
/// white space.
pub proof fn lemma_trim_start_suffix(s: Seq<char>)
    ensures
        trim_start_spec(s).len() <= s.len(),
        trim_start_spec(s) == s.skip(s.len() - trim_start_spec(s).len()),
        trim_start_spec(s).len() > 0 ==> !is_space(trim_start_spec(s)[0]),
    decreases s.len(),
{
    if s.len() > 0 && is_space(s[0]) {
        lemma_trim_start_suffix(s.drop_first());
        assert(s.drop_first().skip(s.drop_first().len() - trim_start_spec(s).len()) =~= s.skip(
            s.len() - trim_start_spec(s).len(),
        ));
    } else {
        assert(s.skip(0) =~= s);
    }
}

/// Removing trailing white space leaves a prefix.
pub proof fn lemma_trim_end_prefix(s: Seq<char>)
    ensures
        trim_end_spec(s).len() <= s.len(),
        trim_end_spec(s) == s.take(trim_end_spec(s).len() as int),
    decreases s.len(),
{
    if s.len() > 0 && is_space(s.last()) {
        lemma_trim_end_prefix(s.drop_last());
        assert(s.drop_last().take(trim_end_spec(s).len() as int) =~= s.take(
            trim_end_spec(s).len() as int,
        ));
    } else {
        assert(s.take(s.len() as int) =~= s);
    }
}

/// `p` is found first at `k` when it occurs there and nowhere between
/// `from` and `k`.
pub proof fn lemma_first_occurrence_at(s: Seq<char>, p: Seq<char>, from: int, k: int)
    requires
        0 <= from <= k,
        occurs_at(s, p, k),
        forall|i: int| from <= i < k ==> !occurs_at(s, p, i),
    ensures
        first_occurrence(s, p, from) == Some(k),
    decreases k - from,
{
    if from < k {
        lemma_first_occurrence_at(s, p, from + 1, k);
    }
}

/// `p` is not found where it occurs nowhere.
pub proof fn lemma_first_occurrence_none(s: Seq<char>, p: Seq<char>, from: int)
    requires
        forall|i: int| !occurs_at(s, p, i),
    ensures
        first_occurrence(s, p, from) is None,
    decreases s.len() + 1 - from,
{
    if from >= 0 && from + p.len() <= s.len() {
        lemma_first_occurrence_none(s, p, from + 1);
    }
}

/// Removes leading and trailing white space.
pub fn trim(s: &Vec<char>) -> (r: Vec<char>)
    ensures
        r@ == trim_spec(s@),
{
    let n = s.len();
    let mut a: usize = 0;
    assert(s@.subrange(0, n as int) =~= s@);
    while a < n && is_space_char(s[a])
        invariant
            n == s@.len(),
            a <= n,
            trim_start_spec(s@.subrange(a as int, n as int)) == trim_start_spec(s@),
        decreases n - a,
    {
        assert(s@.subrange(a as int, n as int).drop_first() =~= s@.subrange(a + 1, n as int));
        a = a + 1;
    }
    if a == 0 {
        assert(s@.subrange(0, n as int) =~= s@);
    }
    let mut b: usize = n;
    while b > a && is_space_char(s[b - 1])
        invariant
            n == s@.len(),
            a <= b <= n,
            trim_start_spec(s@) == s@.subrange(a as int, n as int),
            trim_end_spec(s@.subrange(a as int, b as int)) == trim_spec(s@),
        decreases b - a,
    {
        assert(s@.subrange(a as int, b as int).drop_last() =~= s@.subrange(a as int, b - 1));
        b = b - 1;
    }
    slice_of(s, a, b)
}

// ---------------------------------------------------------------------
// Occurrences of a pattern
// ---------------------------------------------------------------------

/// `p` occurs in `s` starting at index `i`.
pub open spec fn occurs_at(s: Seq<char>, p: Seq<char>, i: int) -> bool {
    0 <= i && i + p.len() <= s.len() && s.subrange(i, i + p.len()) == p
}

/// `s` starts with `p`.
pub open spec fn has_prefix(s: Seq<char>, p: Seq<char>) -> bool {
    occurs_at(s, p, 0)
}

/// `s` ends with `p`.
pub open spec fn has_suffix(s: Seq<char>, p: Seq<char>) -> bool {
    occurs_at(s, p, s.len() - p.len())
}

/// The first index at or after `from` where `p` occurs in `s`.
pub open spec fn first_occurrence(s: Seq<char>, p: Seq<char>, from: int) -> Option<int>
    decreases s.len() + 1 - from,
{
    if from < 0 || from + p.len() > s.len() {
        None
    } else if occurs_at(s, p, from) {
        Some(from)
    } else {
        first_occurrence(s, p, from + 1)
    }
}

/// The last index at or before `upto` where `p` occurs in `s`.
pub open spec fn last_occurrence(s: Seq<char>, p: Seq<char>, upto: int) -> Option<int>
    decreases upto + 1,
{
    if upto < 0 {
        None
    } else if occurs_at(s, p, upto) {
        Some(upto)
    } else {
        last_occurrence(s, p, upto - 1)
    }
}

pub proof fn lemma_last_occurrence_found(s: Seq<char>, p: Seq<char>, upto: int)
    ensures
        last_occurrence(s, p, upto) matches Some(k) ==> 0 <= k <= upto && occurs_at(s, p, k),
    decreases upto + 1,
{
    if upto >= 0 && !occurs_at(s, p, upto) {
        lemma_last_occurrence_found(s, p, upto - 1);
    }
}

pub proof fn lemma_first_occurrence_found(s: Seq<char>, p: Seq<char>, from: int)
    ensures
        first_occurrence(s, p, from) matches Some(k) ==> from <= k && occurs_at(s, p, k),
    decreases s.len() + 1 - from,
{
    if !(from < 0 || from + p.len() > s.len()) && !occurs_at(s, p, from) {
        lemma_first_occurrence_found(s, p, from + 1);
    }
}

/// Whether `p` occurs in `s` at index `i`.
pub fn matches_at(s: &Vec<char>, p: &Vec<char>, i: usize) -> (r: bool)
    ensures
        r == occurs_at(s@, p@, i as int),
{
    if i > s.len() || p.len() > s.len() - i {
        return false;
    }
    let mut k: usize = 0;
    while k < p.len()
        invariant
            i + p@.len() <= s.len(),
            s@.len() == s.len(),
            k <= p@.len(),
            forall|j: int| 0 <= j < k ==> s@[i + j] == p@[j],
        decreases p@.len() - k,
    {
        if s[i + k] != p[k] {
            assert(s@.subrange(i as int, i + p@.len())[k as int] != p@[k as int]);
            return false;
        }
        k = k + 1;
    }
    assert(s@.subrange(i as int, i + p@.len()) =~= p@);
    true
}

/// Whether `s` starts with `p`.
pub fn starts_with(s: &Vec<char>, p: &Vec<char>) -> (r: bool)
    ensures
        r == has_prefix(s@, p@),
{
    matches_at(s, p, 0)
}

/// Whether `s` ends with `p`.
pub fn ends_with(s: &Vec<char>, p: &Vec<char>) -> (r: bool)
    ensures
        r == has_suffix(s@, p@),
{
    if p.len() > s.len() {
        return false;
    }
    matches_at(s, p, s.len() - p.len())
}

/// The first index at or after `from` where `p` occurs in `s`.
pub fn find_from(s: &Vec<char>, p: &Vec<char>, from: usize) -> (r: Option<usize>)
    ensures
        match r {
            Some(i) => first_occurrence(s@, p@, from as int) == Some(i as int),
            None => first_occurrence(s@, p@, from as int) is None,
        },
{
    let mut i = from;
    while i <= s.len() && p.len() <= s.len() - i
        invariant
            from <= i,
            first_occurrence(s@, p@, from as int) == first_occurrence(s@, p@, i as int),
        decreases s@.len() + 1 - i,
    {
        if matches_at(s, p, i) {
            return Some(i);
        }
        assert(p@.len() > 0) by {
            if p@.len() == 0 {
                assert(s@.subrange(i as int, i as int) =~= p@);
            }
        }
        i = i + 1;
    }
    None
}

/// The last index at which `p` occurs in `s`.
pub fn rfind(s: &Vec<char>, p: &Vec<char>) -> (r: Option<usize>)
    ensures
        match r {
            Some(i) => last_occurrence(s@, p@, s@.len() - p@.len()) == Some(i as int),
            None => last_occurrence(s@, p@, s@.len() - p@.len()) is None,
        },
{
    if p.len() > s.len() {
        return None;
    }
    let mut i = s.len() - p.len();
    loop
        invariant
            i <= s@.len() - p@.len(),
            last_occurrence(s@, p@, s@.len() - p@.len()) == last_occurrence(s@, p@, i as int),
        decreases i,
    {
        if matches_at(s, p, i) {
            return Some(i);
        }
        if i == 0 {
            assert(last_occurrence(s@, p@, -1) is None);
            return None;
        }
        i = i - 1;
    }
}


// ---------------------------------------------------------------------
// Replacing and stripping
// ---------------------------------------------------------------------

/// Every non-overlapping occurrence of `p` in `s`, scanned from the left,
/// replaced by `r` (`str::replace` for a non-empty pattern).
pub open spec fn replace_spec(s: Seq<char>, p: Seq<char>, r: Seq<char>) -> Seq<char>
    decreases s.len(),
{
    if s.len() == 0 || p.len() == 0 {
        s
    } else if has_prefix(s, p) {
        r + replace_spec(s.skip(p.len() as int), p, r)
    } else {
        seq![s[0]] + replace_spec(s.drop_first(), p, r)
    }
}

pub proof fn lemma_occurs_shift(a: Seq<char>, b: Seq<char>, p: Seq<char>, q: int)
    requires
        q >= a.len(),
        occurs_at(a + b, p, q),
    ensures
        occurs_at(b, p, q - a.len()),
{
    assert((a + b).subrange(q, q + p.len()) =~= b.subrange(q - a.len(), q - a.len() + p.len()));
}

/// Where `p` does not occur in `z`, replacing it changes nothing.
pub proof fn lemma_replace_absent(z: Seq<char>, p: Seq<char>, r: Seq<char>)
    requires
        forall|q: int| !occurs_at(z, p, q),
    ensures
        replace_spec(z, p, r) == z,
    decreases z.len(),
{
    if z.len() > 0 && p.len() > 0 {
        assert(!occurs_at(z, p, 0));
        let t = z.drop_first();
        assert forall|q: int| !occurs_at(t, p, q) by {
            if occurs_at(t, p, q) {
                assert(z.subrange(q + 1, q + 1 + p.len()) =~= t.subrange(q, q + p.len()));
                assert(occurs_at(z, p, q + 1));
            }
        }
        lemma_replace_absent(t, p, r);
        assert(seq![z[0]] + t =~= z);
    }
}

/// A prefix that does not hold the first character of the pattern is
/// copied by a replacement.
pub proof fn lemma_replace_skip_prefix(x: Seq<char>, y: Seq<char>, p: Seq<char>, r: Seq<char>)
    requires
        p.len() > 0,
        forall|i: int| 0 <= i < x.len() ==> x[i] != p[0],
    ensures
        replace_spec(x + y, p, r) == x + replace_spec(y, p, r),
    decreases x.len(),
{
    if x.len() == 0 {
        assert(x + y =~= y);
        assert(x + replace_spec(y, p, r) =~= replace_spec(y, p, r));
    } else {
        let xy = x + y;
        assert(xy[0] == x[0]);
        assert(!has_prefix(xy, p)) by {
            if has_prefix(xy, p) {
                assert(xy.subrange(0, p.len() as int)[0] == p[0]);
            }
        }
        assert(xy.drop_first() =~= x.drop_first() + y);
        lemma_replace_skip_prefix(x.drop_first(), y, p, r);
        assert(seq![xy[0]] + (x.drop_first() + replace_spec(y, p, r)) =~= x + replace_spec(y, p, r));
    }
}

/// Replaces every non-overlapping occurrence of `p` in `s` by `r`.
pub fn replace_chars(s: &Vec<char>, p: &Vec<char>, r: &Vec<char>) -> (out: Vec<char>)
    requires
        p@.len() > 0,
    ensures
        out@ == replace_spec(s@, p@, r@),
{
    let mut out: Vec<char> = Vec::new();
    let mut i: usize = 0;
    assert(s@.skip(0) =~= s@);
    while i < s.len()
        invariant
            p@.len() > 0,
            i <= s@.len(),
            out@ + replace_spec(s@.skip(i as int), p@, r@) == replace_spec(s@, p@, r@),
        decreases s@.len() - i,
    {
        let ghost rest = s@.skip(i as int);
        assert(rest.subrange(0, p@.len() as int) =~= s@.subrange(i as int, i + p@.len()) || i
            + p@.len() > s@.len());
        if matches_at(s, p, i) {
            assert(rest.skip(p@.len() as int) =~= s@.skip(i + p@.len()));
            assert(has_prefix(rest, p@));
            append_chars(&mut out, r);
            i = i + p.len();
        } else {
            assert(!has_prefix(rest, p@));
            assert(rest.drop_first() =~= s@.skip(i + 1));
            assert(seq![rest[0]] =~= seq![s@[i as int]]);
            out.push(s[i]);
            i = i + 1;
        }
        assert(out@ + replace_spec(s@.skip(i as int), p@, r@) =~= replace_spec(s@, p@, r@));
    }
    assert(s@.skip(i as int) =~= Seq::<char>::empty());
    assert(out@ + Seq::<char>::empty() =~= out@);
    out
}

/// `s` with every leading copy of `p` removed (`str::trim_start_matches`).
pub open spec fn strip_prefixes(s: Seq<char>, p: Seq<char>) -> Seq<char>
    decreases s.len(),
{
    if p.len() > 0 && has_prefix(s, p) {
        strip_prefixes(s.skip(p.len() as int), p)
    } else {
        s
    }
}

/// `s` with every trailing copy of `p` removed (`str::trim_end_matches`).
pub open spec fn strip_suffixes(s: Seq<char>, p: Seq<char>) -> Seq<char>
    decreases s.len(),
{
    if p.len() > 0 && has_suffix(s, p) {
        strip_suffixes(s.take(s.len() - p.len()), p)
    } else {
        s
    }
}

/// Removes every leading copy of `p` from `s`.
pub fn trim_start_matches(s: &Vec<char>, p: &Vec<char>) -> (r: Vec<char>)
    ensures
        r@ == strip_prefixes(s@, p@),
{
    if p.len() == 0 {
        return slice_of(s, 0, s.len());
    }
    let n = s.len();
    let mut a: usize = 0;
    assert(s@.subrange(0, n as int) =~= s@);
    while matches_at(s, p, a)
        invariant
            n == s@.len(),
            p@.len() > 0,
            a <= n,
            strip_prefixes(s@.subrange(a as int, n as int), p@) == strip_prefixes(s@, p@),
        decreases n - a,
    {
        let ghost rest = s@.subrange(a as int, n as int);
        assert(rest.subrange(0, p@.len() as int) =~= s@.subrange(a as int, a + p@.len()));
        assert(rest.skip(p@.len() as int) =~= s@.subrange(a + p@.len(), n as int));
        a = a + p.len();
    }
    let ghost rest = s@.subrange(a as int, n as int);
    assert(!has_prefix(rest, p@)) by {
        if has_prefix(rest, p@) {
            assert(rest.subrange(0, p@.len() as int) =~= s@.subrange(a as int, a + p@.len()));
        }
    }
    slice_of(s, a, n)
}

/// Removes every trailing copy of `p` from `s`.
pub fn trim_end_matches(s: &Vec<char>, p: &Vec<char>) -> (r: Vec<char>)
    ensures
        r@ == strip_suffixes(s@, p@),
{
    if p.len() == 0 {
        return slice_of(s, 0, s.len());
    }
    let mut b: usize = s.len();
    assert(s@.subrange(0, b as int) =~= s@);
    while b >= p.len() && matches_at(s, p, b - p.len())
        invariant
            b <= s@.len(),
            p@.len() > 0,
            strip_suffixes(s@.subrange(0, b as int), p@) == strip_suffixes(s@, p@),
        decreases b,
    {
        let ghost pre = s@.subrange(0, b as int);
        assert(pre.subrange(b - p@.len(), b as int) =~= s@.subrange(b - p@.len(), b as int));
        assert(pre.take(b - p@.len()) =~= s@.subrange(0, b - p@.len()));
        b = b - p.len();
    }
    let ghost pre = s@.subrange(0, b as int);
    assert(!has_suffix(pre, p@)) by {
        if has_suffix(pre, p@) {
            assert(pre.subrange(b - p@.len(), b as int) =~= s@.subrange(b - p@.len(), b as int));
        }
    }
    slice_of(s, 0, b)
}

/// How many times `c` occurs in `s`.
pub open spec fn count_char(s: Seq<char>, c: char) -> nat
    decreases s.len(),
{
    if s.len() == 0 {
        0
    } else {
        count_char(s.drop_last(), c) + (if s.last() == c {
            1nat
        } else {
            0nat
        })
    }
}

/// Counts the occurrences of `c` in `s`.
pub fn count_occurrences(s: &Vec<char>, c: char) -> (n: usize)
    ensures
        n == count_char(s@, c),
{
    let mut n: usize = 0;
    let mut i: usize = 0;
    assert(s@.subrange(0, 0) =~= Seq::<char>::empty());
    while i < s.len()
        invariant
            i <= s@.len(),
            n == count_char(s@.subrange(0, i as int), c),
            n <= i,
        decreases s@.len() - i,
    {
        assert(s@.subrange(0, i + 1).drop_last() =~= s@.subrange(0, i as int));
        if s[i] == c {
            n = n + 1;
        }
        i = i + 1;
    }
    assert(s@.subrange(0, i as int) =~= s@);
    n
}


// ---------------------------------------------------------------------
// Numbers as text
// ---------------------------------------------------------------------

/// The lower-case hexadecimal digits, by value.
pub open spec fn hex_digit_chars() -> Seq<char> {
    seq!['0', '1', '2', '3', '4', '5', '6', '7', '8', '9', 'a', 'b', 'c', 'd', 'e', 'f']
}

/// The digit for a value below 16.
pub open spec fn digit_char(d: nat) -> char {
    hex_digit_chars()[d as int]
}

/// The digit character for `d`.
pub fn digit(d: u64) -> (c: char)
    requires
        d < 16,
    ensures
        c == digit_char(d as nat),
{
    let t = ['0', '1', '2', '3', '4', '5', '6', '7', '8', '9', 'a', 'b', 'c', 'd', 'e', 'f'];
    assert(t@ =~= hex_digit_chars());
    t[d as usize]
}

/// `n` in decimal, without leading zeros (`format!("{}", n)`).
pub open spec fn decimal(n: nat) -> Seq<char>
    decreases n,
{
    if n < 10 {
        seq![digit_char(n)]
    } else {
        decimal(n / 10).push(digit_char(n % 10))
    }
}

/// `n` as exactly `width` lower-case hexadecimal digits (the low `width`
/// digits, zero-padded: `format!("{:016x}", n)` for `width == 16`).
pub open spec fn hex_padded(n: nat, width: nat) -> Seq<char>
    decreases width,
{
    if width == 0 {
        Seq::empty()
    } else {
        hex_padded(n / 16, (width - 1) as nat).push(digit_char(n % 16))
    }
}

pub proof fn lemma_decimal(n: nat)
    ensures
        decimal(n).len() >= 1,
        n >= 10 ==> decimal(n).len() >= 2,
        forall|i: int| 0 <= i < decimal(n).len() ==> '0' <= #[trigger] decimal(n)[i] <= '9',
    decreases n,
{
    reveal_with_fuel(decimal, 2);
    if n >= 10 {
        lemma_decimal(n / 10);
        assert forall|i: int| 0 <= i < decimal(n).len() implies '0' <= #[trigger] decimal(n)[i]
            <= '9' by {
            if i < decimal(n).len() - 1 {
                assert(decimal(n)[i] == decimal(n / 10)[i]);
            }
        }
    }
}

pub proof fn lemma_digit_char(d: nat)
    requires
        d < 10,
    ensures
        digit_char(d) as u32 == 48 + d,
{
    if d == 0 {
        assert(hex_digit_chars()[0] == '0');
    } else if d == 1 {
        assert(hex_digit_chars()[1] == '1');
    } else if d == 2 {
        assert(hex_digit_chars()[2] == '2');
    } else if d == 3 {
        assert(hex_digit_chars()[3] == '3');
    } else if d == 4 {
        assert(hex_digit_chars()[4] == '4');
    } else if d == 5 {
        assert(hex_digit_chars()[5] == '5');
    } else if d == 6 {
        assert(hex_digit_chars()[6] == '6');
    } else if d == 7 {
        assert(hex_digit_chars()[7] == '7');
    } else if d == 8 {
        assert(hex_digit_chars()[8] == '8');
    } else if d == 9 {
        assert(hex_digit_chars()[9] == '9');
    }
}

/// Different numbers have different decimal texts.
pub proof fn lemma_decimal_injective(a: nat, b: nat)
    requires
        decimal(a) == decimal(b),
    ensures
        a == b,
    decreases a,
{
    lemma_decimal(a);
    lemma_decimal(b);
    if a >= 10 && b >= 10 {
        let da = decimal(a);
        let db = decimal(b);
        assert(da.drop_last() =~= decimal(a / 10));
        assert(db.drop_last() =~= decimal(b / 10));
        assert(da.last() == digit_char(a % 10));
        assert(db.last() == digit_char(b % 10));
        lemma_digit_char(a % 10);
        lemma_digit_char(b % 10);
        lemma_decimal_injective(a / 10, b / 10);
        assert(a % 10 == b % 10);
        assert(a / 10 == b / 10);
        assert(a == 10 * (a / 10) + a % 10);
        assert(b == 10 * (b / 10) + b % 10);
    } else if a < 10 && b >= 10 {
        assert(decimal(a).len() == 1);
    } else if a >= 10 && b < 10 {
        assert(decimal(b).len() == 1);
    } else {
        assert(decimal(a) == seq![digit_char(a)]);
        assert(decimal(b) == seq![digit_char(b)]);
        assert(decimal(a)[0] == digit_char(a));
        assert(decimal(b)[0] == digit_char(b));
        assert(digit_char(a) == digit_char(b));
        lemma_digit_char(a);
        lemma_digit_char(b);
    }
}

/// Appends `n` in decimal.
pub fn push_decimal(out: &mut Vec<char>, n: usize)
    ensures
        final(out)@ == old(out)@ + decimal(n as nat),
    decreases n,
{
    if n >= 10 {
        push_decimal(out, n / 10);
    }
    out.push(digit((n % 10) as u64));
    assert(final(out)@ =~= old(out)@ + decimal(n as nat)) by {
        if n >= 10 {
            assert(decimal(n as nat) == decimal((n / 10) as nat).push(digit_char((n % 10) as nat)));
        }
    }
}

/// Appends the low `width` hexadecimal digits of `n`.
pub fn push_hex(out: &mut Vec<char>, n: u64, width: usize)
    ensures
        final(out)@ == old(out)@ + hex_padded(n as nat, width as nat),
    decreases width,
{
    if width == 0 {
        assert(old(out)@ + hex_padded(n as nat, 0) =~= old(out)@);
        return;
    }
    push_hex(out, n / 16, width - 1);
    out.push(digit(n % 16));
    assert(out@ =~= old(out)@ + hex_padded(n as nat, width as nat));
}

// ---------------------------------------------------------------------
// Lines
// ---------------------------------------------------------------------

/// The index of the first line feed at or after `i`, or the length of `s`.
pub open spec fn line_end(s: Seq<char>, i: int) -> int
    decreases s.len() - i,
{
    if i >= s.len() {
        s.len() as int
    } else if i >= 0 && s[i] == '\n' {
        i
    } else {
        line_end(s, i + 1)
    }
}

pub proof fn lemma_line_end_bounds(s: Seq<char>, i: int)
    requires
        0 <= i <= s.len(),
    ensures
        i <= line_end(s, i) <= s.len(),
        line_end(s, i) < s.len() ==> s[line_end(s, i)] == '\n',
    decreases s.len() - i,
{
    if i < s.len() && s[i] != '\n' {
        lemma_line_end_bounds(s, i + 1);
    }
}

/// A line that ended in a line feed, without its carriage return if it had one.
pub open spec fn strip_cr(l: Seq<char>) -> Seq<char> {
    if l.len() > 0 && l.last() == '\r' {
        l.drop_last()
    } else {
        l
    }
}

/// The lines of `s[start..]` as `str::lines` gives them: split at line feeds,
/// each `\r\n` ending counted as one, no final empty line.
pub open spec fn lines_from(s: Seq<char>, start: int) -> Seq<Seq<char>>
    decreases s.len() - start,
{
    if start < 0 || start >= s.len() {
        Seq::empty()
    } else {
        let e = line_end(s, start);
        proof {
            lemma_line_end_bounds(s, start);
        }
        if e < s.len() {
            seq![strip_cr(s.subrange(start, e))] + lines_from(s, e + 1)
        } else {
            seq![s.subrange(start, s.len() as int)]
        }
    }
}

/// The lines of `s` (`str::lines`).
pub open spec fn lines_spec(s: Seq<char>) -> Seq<Seq<char>> {
    lines_from(s, 0)
}

/// The views of a sequence of character vectors.
pub open spec fn views(v: Seq<Vec<char>>) -> Seq<Seq<char>> {
    v.map_values(|x: Vec<char>| x@)
}

proof fn lemma_line_end_skip(s: Seq<char>, i: int, j: int)
    requires
        0 <= i <= j <= s.len(),
        forall|k: int| i <= k < j ==> s[k] != '\n',
    ensures
        line_end(s, i) == line_end(s, j),
    decreases j - i,
{
    if i < j {
        lemma_line_end_skip(s, i + 1, j);
    }
}

/// Splits `s` into lines as `str::lines` does.
pub fn split_lines(s: &Vec<char>) -> (ls: Vec<Vec<char>>)
    ensures
        views(ls@) == lines_spec(s@),
{
    let mut ls: Vec<Vec<char>> = Vec::new();
    let mut start: usize = 0;
    let mut i: usize = 0;
    while i < s.len()
        invariant
            start <= i <= s@.len(),
            forall|k: int| start <= k < i ==> s@[k] != '\n',
            views(ls@) + lines_from(s@, start as int) == lines_spec(s@),
        decreases s@.len() - i,
    {
        if s[i] == '\n' {
            proof {
                lemma_line_end_skip(s@, start as int, i as int);
            }
            let mut l = slice_of(s, start, i);
            if l.len() > 0 && l[l.len() - 1] == '\r' {
                l.pop();
            }
            assert(l@ =~= strip_cr(s@.subrange(start as int, i as int)));
            let ghost old_ls = ls@;
            ls.push(l);
            assert(views(ls@) =~= views(old_ls).push(l@));
            assert(views(ls@) + lines_from(s@, (i + 1) as int) =~= views(old_ls) + lines_from(
                s@,
                start as int,
            ));
            start = i + 1;
        }
        i = i + 1;
    }
    proof {
        lemma_line_end_skip(s@, start as int, i as int);
    }
    if start < s.len() {
        let l = slice_of(s, start, s.len());
        let ghost old_ls = ls@;
        ls.push(l);
        assert(views(ls@) =~= views(old_ls).push(l@));
        assert(views(ls@) =~= views(old_ls) + lines_from(s@, start as int));
    } else {
        assert(views(ls@) =~= views(ls@) + lines_from(s@, start as int));
    }
    ls
}

/// The strings of `ls` joined with `sep` between neighbours (`[..].join(sep)`).
pub open spec fn join_spec(ls: Seq<Seq<char>>, sep: Seq<char>) -> Seq<char>
    decreases ls.len(),
{
    if ls.len() == 0 {
        Seq::empty()
    } else if ls.len() == 1 {
        ls[0]
    } else {
        join_spec(ls.drop_last(), sep) + sep + ls.last()
    }
}

/// Joins `ls` with `sep` between neighbours.
pub fn join_chars(ls: &Vec<Vec<char>>, sep: &Vec<char>) -> (out: Vec<char>)
    ensures
        out@ == join_spec(views(ls@), sep@),
{
    let mut out: Vec<char> = Vec::new();
    let mut i: usize = 0;
    while i < ls.len()
        invariant
            i <= ls@.len(),
            out@ == join_spec(views(ls@).take(i as int), sep@),
        decreases ls@.len() - i,
    {
        assert(views(ls@).take(i + 1).drop_last() =~= views(ls@).take(i as int));
        if i > 0 {
            append_chars(&mut out, sep);
        }
        append_chars(&mut out, &ls[i]);
        i = i + 1;
        assert(out@ =~= join_spec(views(ls@).take(i as int), sep@));
    }
    assert(views(ls@).take(i as int) =~= views(ls@));
    out
}


// ---------------------------------------------------------------------
// Splitting at a character
// ---------------------------------------------------------------------

/// The index of the first `c` at or after `i`, or the length of `s`.
pub open spec fn char_end(s: Seq<char>, i: int, c: char) -> int
    decreases s.len() - i,
{
    if i >= s.len() {
        s.len() as int
    } else if i >= 0 && s[i] == c {
        i
    } else {
        char_end(s, i + 1, c)
    }
}

pub proof fn lemma_char_end_bounds(s: Seq<char>, i: int, c: char)
    requires
        0 <= i <= s.len(),
    ensures
        i <= char_end(s, i, c) <= s.len(),
        char_end(s, i, c) < s.len() ==> s[char_end(s, i, c)] == c,
        forall|k: int| i <= k < char_end(s, i, c) ==> s[k] != c,
    decreases s.len() - i,
{
    if i < s.len() && s[i] != c {
        lemma_char_end_bounds(s, i + 1, c);
    }
}

proof fn lemma_char_end_skip(s: Seq<char>, i: int, j: int, c: char)
    requires
        0 <= i <= j <= s.len(),
        forall|k: int| i <= k < j ==> s[k] != c,
    ensures
        char_end(s, i, c) == char_end(s, j, c),
    decreases j - i,
{
    if i < j {
        lemma_char_end_skip(s, i + 1, j, c);
    }
}

/// The pieces of `s[start..]` between occurrences of `c` (`str::split` by a
/// character: one more piece than there are separators).
pub open spec fn split_from(s: Seq<char>, start: int, c: char) -> Seq<Seq<char>>
    decreases s.len() - start,
{
    if start < 0 || start > s.len() {
        Seq::empty()
    } else {
        let e = char_end(s, start, c);
        proof {
            lemma_char_end_bounds(s, start, c);
        }
        if e < s.len() {
            seq![s.subrange(start, e)] + split_from(s, e + 1, c)
        } else {
            seq![s.subrange(start, s.len() as int)]
        }
    }
}

/// The pieces of `s` between occurrences of `c`.
pub open spec fn split_spec(s: Seq<char>, c: char) -> Seq<Seq<char>> {
    split_from(s, 0, c)
}

/// Splits `s` at every `c`.
pub fn split_char(s: &Vec<char>, c: char) -> (parts: Vec<Vec<char>>)
    ensures
        views(parts@) == split_spec(s@, c),
{
    let mut parts: Vec<Vec<char>> = Vec::new();
    let mut start: usize = 0;
    let mut i: usize = 0;
    while i < s.len()
        invariant
            start <= i <= s@.len(),
            forall|k: int| start <= k < i ==> s@[k] != c,
            views(parts@) + split_from(s@, start as int, c) == split_spec(s@, c),
        decreases s@.len() - i,
    {
        if s[i] == c {
            proof {
                lemma_char_end_skip(s@, start as int, i as int, c);
            }
            let piece = slice_of(s, start, i);
            let ghost old_parts = parts@;
            parts.push(piece);
            assert(views(parts@) =~= views(old_parts).push(piece@));
            assert(views(parts@) + split_from(s@, (i + 1) as int, c) =~= views(old_parts)
                + split_from(s@, start as int, c));
            start = i + 1;
        }
        i = i + 1;
    }
    proof {
        lemma_char_end_skip(s@, start as int, i as int, c);
    }
    let piece = slice_of(s, start, s.len());
    let ghost old_parts = parts@;
    parts.push(piece);
    assert(views(parts@) =~= views(old_parts).push(piece@));
    assert(views(parts@) =~= views(old_parts) + split_from(s@, start as int, c));
    parts
}

/// The first position at or after `from` that holds `c`, or the length.
pub fn find_char_from(s: &Vec<char>, from: usize, c: char) -> (r: usize)
    requires
        from <= s@.len(),
    ensures
        r == char_end(s@, from as int, c),
{
    let mut i: usize = from;
    while i < s.len() && s[i] != c
        invariant
            from <= i <= s@.len(),
            char_end(s@, from as int, c) == char_end(s@, i as int, c),
        decreases s@.len() - i,
    {
        i = i + 1;
    }
    i
}

/// The first index of `c` in `s`.
pub fn find_char(s: &Vec<char>, c: char) -> (r: usize)
    ensures
        r == char_end(s@, 0, c),
{
    let mut i: usize = 0;
    while i < s.len() && s[i] != c
        invariant
            i <= s@.len(),
            char_end(s@, 0, c) == char_end(s@, i as int, c),
        decreases s@.len() - i,
    {
        i = i + 1;
    }
    i
}


} // verus!
