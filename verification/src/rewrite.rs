//! The RC++ to C++ syntax translation of one line: string and character
//! literals are masked, the declaration forms are rewritten by pattern,
//! `panic!(..)` becomes a call of `__panic_here`, and the literals are put
//! back.
use vstd::prelude::*;
use crate::error::RcppError;
use crate::parser::string_views;
use crate::text::{
    append_chars, append_str, char_end, chars_eq, chars_of, decimal, find_char, find_char_from,
    has_prefix, is_space, is_space_char, join_chars, join_spec, lemma_char_end_bounds, matches_at, occurs_at, push_decimal,
    replace_chars, replace_spec, slice_of, split_char, split_spec, string_of, trim, trim_spec, views,
};

verus! {

// ---------------------------------------------------------------------
// Masking literals
// ---------------------------------------------------------------------

/// The end (one past the closing quote) of a literal quoted by `q` whose
/// text is scanned from `k` on: the first `q` at or after `k` that does not
/// follow a backslash closes it; without one the literal runs to the end.
pub open spec fn quoted_end(s: Seq<char>, k: int, q: char) -> int
    decreases s.len() - k,
{
    if k < 1 || k >= s.len() {
        s.len() as int
    } else if s[k] == q && s[k - 1] != '\\' {
        k + 1
    } else {
        quoted_end(s, k + 1, q)
    }
}

/// The end of a raw literal `R"..."` whose text is scanned from `k` on: the
/// first `"` at or after `k` closes it.
pub open spec fn raw_end(s: Seq<char>, k: int) -> int
    decreases s.len() - k,
{
    if k < 0 || k >= s.len() {
        s.len() as int
    } else if s[k] == '"' {
        k + 1
    } else {
        raw_end(s, k + 1)
    }
}

pub proof fn lemma_quoted_end(s: Seq<char>, k: int, q: char)
    requires
        1 <= k,
    ensures
        k < s.len() ==> k < quoted_end(s, k, q) <= s.len(),
        k >= s.len() ==> quoted_end(s, k, q) == s.len(),
    decreases s.len() - k,
{
    if k < s.len() && !(s[k] == q && s[k - 1] != '\\') {
        lemma_quoted_end(s, k + 1, q);
    }
}

pub proof fn lemma_raw_end(s: Seq<char>, k: int)
    requires
        0 <= k,
    ensures
        k < s.len() ==> k < raw_end(s, k) <= s.len(),
        k >= s.len() ==> raw_end(s, k) == s.len(),
    decreases s.len() - k,
{
    if k < s.len() && s[k] != '"' {
        lemma_raw_end(s, k + 1);
    }
}

/// The text that stands for the `n`-th masked literal.
pub open spec fn placeholder(n: nat) -> Seq<char> {
    "\u{0}LIT_"@ + decimal(n) + "\u{0}"@
}

/// The end of the literal that starts at `i`, if one does: a `"` or `'`
/// literal, or a raw literal `R"` (whose closing `"` must come after at
/// least one character of text).
pub open spec fn literal_end(s: Seq<char>, i: int) -> Option<int> {
    if s[i] == '"' || s[i] == '\'' {
        Some(quoted_end(s, i + 1, s[i]))
    } else if s[i] == 'R' && i + 1 < s.len() && s[i + 1] == '"' {
        Some(raw_end(s, i + 3))
    } else {
        None
    }
}

/// `s[i..]` with its literals replaced by placeholders numbered from `n`
/// on, and the literals taken out, in order.
pub open spec fn mask_from(s: Seq<char>, i: int, n: nat) -> (Seq<char>, Seq<Seq<char>>)
    decreases s.len() - i,
{
    if i < 0 || i >= s.len() {
        (seq![], seq![])
    } else {
        proof {
            lemma_quoted_end(s, i + 1, s[i]);
            lemma_raw_end(s, i + 3);
        }
        match literal_end(s, i) {
            Some(e) => {
                let r = mask_from(s, e, n + 1);
                (placeholder(n) + r.0, seq![s.subrange(i, e)] + r.1)
            },
            None => {
                let r = mask_from(s, i + 1, n);
                (seq![s[i]] + r.0, r.1)
            },
        }
    }
}

/// What a placeholder is made of.
pub proof fn lemma_placeholder(n: nat)
    ensures
        placeholder(n).len() == 6 + decimal(n).len(),
        placeholder(n)[0] == '\u{0}',
        placeholder(n)[placeholder(n).len() - 1] == '\u{0}',
        placeholder(n)[1] == 'L',
        placeholder(n)[2] == 'I',
        placeholder(n)[3] == 'T',
        placeholder(n)[4] == '_',
        forall|i: int| 0 <= i < decimal(n).len() ==> placeholder(n)[5 + i] == decimal(n)[i],
        forall|i: int| 0 < i < placeholder(n).len() - 1 ==> placeholder(n)[i] != '\u{0}',
{
    reveal_strlit("\u{0}LIT_");
    reveal_strlit("\u{0}");
    crate::text::lemma_decimal(n);
    let p = placeholder(n);
    let d = decimal(n);
    assert(p =~= seq!['\u{0}', 'L', 'I', 'T', '_'] + d + seq!['\u{0}']);
    assert forall|i: int| 0 < i < p.len() - 1 implies p[i] != '\u{0}' by {
        if i >= 5 {
            assert(p[i] == d[i - 5]);
        }
    }
}

/// A placeholder starts only the text of a placeholder with its own number.
pub proof fn lemma_placeholder_prefix(n: nat, j: nat, y: Seq<char>)
    requires
        has_prefix(placeholder(n) + y, placeholder(j)),
    ensures
        j == n,
{
    lemma_placeholder(n);
    lemma_placeholder(j);
    crate::text::lemma_decimal(n);
    crate::text::lemma_decimal(j);
    let pn = placeholder(n);
    let pj = placeholder(j);
    let x = pn + y;
    let dn = decimal(n);
    let dj = decimal(j);
    assert forall|i: int| 0 <= i < pj.len() implies x[i] == pj[i] by {
        assert(x.subrange(0, pj.len() as int)[i] == pj[i]);
    }
    if dj.len() == dn.len() {
        assert forall|i: int| 0 <= i < dj.len() implies dj[i] == dn[i] by {
            assert(x[5 + i] == pj[5 + i]);
            assert(x[5 + i] == pn[5 + i]);
        }
        assert(dj =~= dn);
        crate::text::lemma_decimal_injective(j, n);
    } else if dj.len() < dn.len() {
        let k: int = 5 + dj.len() as int;
        assert(x[k] == pj[k]);
        assert(x[k] == pn[k]);
        assert(pn[k] == dn[dj.len() as int]);
    } else {
        let k: int = 5 + dn.len() as int;
        assert(x[k] == pj[k]);
        assert(x[k] == pn[k]);
        assert(pj[k] == dj[dn.len() as int]);
    }
}

/// No NUL character in the text.
pub open spec fn no_nul(s: Seq<char>) -> bool {
    forall|i: int| 0 <= i < s.len() ==> s[i] != '\u{0}'
}

/// Whether, right after a literal of `s` that ends at `e` and is numbered
/// `n`, the text `LIT_<k>` for a smaller number `k` is followed at once by
/// another literal (the one case in which restoring the literals mistakes
/// the text between two placeholders for a placeholder).
pub open spec fn tag_between(s: Seq<char>, e: int, n: nat) -> bool {
    exists|k: nat|
        #![trigger decimal(k)]
        k < n && occurs_at(s, "LIT_"@ + decimal(k), e) && e + 4 + decimal(k).len() < s.len()
            && literal_end(s, e + 4 + decimal(k).len()) is Some
}

/// No literal of `s[b..]` (numbered from `n` on) is followed by such a
/// tag and another literal.
pub open spec fn no_tag_between_from(s: Seq<char>, b: int, n: nat) -> bool
    decreases s.len() - b,
{
    if b < 0 || b >= s.len() {
        true
    } else {
        proof {
            lemma_quoted_end(s, b + 1, s[b]);
            lemma_raw_end(s, b + 3);
        }
        match literal_end(s, b) {
            Some(e) => !tag_between(s, e, n) && no_tag_between_from(s, e, n + 1),
            None => no_tag_between_from(s, b + 1, n),
        }
    }
}

/// Where the masked text of `s[b..]` starts with `u` (which holds no NUL)
/// followed by a NUL, `s[b..]` starts with `u` followed by a literal.
proof fn lemma_mask_tag(s: Seq<char>, b: int, k: nat, u: Seq<char>)
    requires
        0 <= b <= s.len(),
        no_nul(u),
        no_nul(s),
        mask_from(s, b, k).0.len() > u.len(),
        mask_from(s, b, k).0.take(u.len() as int) == u,
        mask_from(s, b, k).0[u.len() as int] == '\u{0}',
    ensures
        b + u.len() < s.len(),
        s.subrange(b, b + u.len()) == u,
        literal_end(s, b + u.len()) is Some,
    decreases u.len(),
{
    let m = mask_from(s, b, k).0;
    if b >= s.len() {
        assert(m.len() == 0);
    }
    lemma_quoted_end(s, b + 1, s[b]);
    lemma_raw_end(s, b + 3);
    if u.len() == 0 {
        if literal_end(s, b) is None {
            let m2 = mask_from(s, b + 1, k).0;
            assert(m == seq![s[b]] + m2);
            assert(m[0] == s[b]);
        }
        assert(s.subrange(b, b) =~= u);
    } else {
        assert(m.take(u.len() as int)[0] == u[0]);
        if literal_end(s, b) is Some {
            lemma_placeholder(k);
            let e = literal_end(s, b).unwrap();
            assert(m == placeholder(k) + mask_from(s, e, k + 1).0);
            assert(m[0] == placeholder(k)[0]);
        } else {
            let m2 = mask_from(s, b + 1, k).0;
            assert(m == seq![s[b]] + m2);
            assert(m2.take(u.len() - 1) =~= u.drop_first());
            assert(m2[u.len() - 1] == m[u.len() as int]);
            lemma_mask_tag(s, b + 1, k, u.drop_first());
            assert(s.subrange(b, b + u.len()) =~= seq![s[b]] + s.subrange(b + 1, b + u.len()));
        }
    }
}

/// A masked suffix numbered from `n` on holds no placeholder numbered
/// below `n`.
proof fn lemma_mask_no_placeholder(s: Seq<char>, b: int, n: nat, j: nat, q: int)
    requires
        0 <= b <= s.len(),
        no_nul(s),
        no_tag_between_from(s, b, n),
        j < n,
    ensures
        !occurs_at(mask_from(s, b, n).0, placeholder(j), q),
    decreases s.len() - b,
{
    let m = mask_from(s, b, n).0;
    let pj = placeholder(j);
    lemma_placeholder(j);
    if b < s.len() && occurs_at(m, pj, q) {
        assert(m.subrange(q, q + pj.len())[0] == pj[0]);
        assert(m[q] == '\u{0}');
        lemma_quoted_end(s, b + 1, s[b]);
        lemma_raw_end(s, b + 3);
        match literal_end(s, b) {
            Some(e) => {
                let pn = placeholder(n);
                lemma_placeholder(n);
                let m2 = mask_from(s, e, n + 1).0;
                assert(m == pn + m2);
                if q == 0 {
                    assert(has_prefix(pn + m2, pj));
                    lemma_placeholder_prefix(n, j, m2);
                } else if q < pn.len() - 1 {
                    assert(m[q] == pn[q]);
                } else if q == pn.len() - 1 {
                    reveal_strlit("LIT_");
                    reveal_strlit("\u{0}LIT_");
                    reveal_strlit("\u{0}");
                    let u = "LIT_"@ + decimal(j);
                    assert(pj =~= seq!['\u{0}'] + u + seq!['\u{0}']);
                    assert forall|i: int| 0 <= i < u.len() implies u[i] != '\u{0}' by {
                        assert(u[i] == pj[i + 1]);
                    }
                    assert forall|i: int| 0 <= i < u.len() + 1 implies m2[i] == pj[i + 1] by {
                        assert(m.subrange(q, q + pj.len())[1 + i] == pj[1 + i]);
                        assert(m[q + 1 + i] == m2[i]);
                    }
                    assert(m2.take(u.len() as int) =~= u);
                    assert(m2[u.len() as int] == pj[u.len() as int + 1]);
                    lemma_mask_tag(s, e, n + 1, u);
                    assert(occurs_at(s, u, e));
                    assert(tag_between(s, e, n));
                } else {
                    crate::text::lemma_occurs_shift(pn, m2, pj, q);
                    lemma_mask_no_placeholder(s, e, n + 1, j, q - pn.len());
                }
            },
            None => {
                let m2 = mask_from(s, b + 1, n).0;
                assert(m == seq![s[b]] + m2);
                if q == 0 {
                    assert(m[0] == s[b]);
                } else {
                    crate::text::lemma_occurs_shift(seq![s[b]], m2, pj, q);
                    lemma_mask_no_placeholder(s, b + 1, n, j, q - 1);
                }
            },
        }
    }
}

/// The placeholders numbered from `j` on replaced, in order, by `ls`.
pub open spec fn restore_from(t: Seq<char>, ls: Seq<Seq<char>>, j: nat) -> Seq<char>
    decreases ls.len(),
{
    if ls.len() == 0 {
        t
    } else {
        restore_from(replace_spec(t, placeholder(j), ls[0]), ls.drop_first(), j + 1)
    }
}

proof fn lemma_restore_from_spec(t: Seq<char>, ls: Seq<Seq<char>>, k: nat)
    requires
        k <= ls.len(),
    ensures
        restore_from(restore_spec(t, ls, k), ls.skip(k as int), k) == restore_spec(t, ls, ls.len()),
    decreases ls.len() - k,
{
    if k < ls.len() {
        assert(ls.skip(k as int)[0] == ls[k as int]);
        assert(ls.skip(k as int).drop_first() =~= ls.skip(k as int + 1));
        lemma_restore_from_spec(t, ls, k + 1);
    } else {
        assert(ls.skip(k as int).len() == 0);
    }
}

proof fn lemma_mask_restore(s: Seq<char>, b: int, j: nat)
    requires
        0 <= b <= s.len(),
        no_nul(s),
        no_tag_between_from(s, b, j),
    ensures
        restore_from(s.take(b) + mask_from(s, b, j).0, mask_from(s, b, j).1, j) == s,
    decreases s.len() - b,
{
    let m = mask_from(s, b, j);
    if b >= s.len() {
        assert(s.take(b) + m.0 =~= s);
    } else {
        lemma_quoted_end(s, b + 1, s[b]);
        lemma_raw_end(s, b + 3);
        match literal_end(s, b) {
            Some(e) => {
                let pj = placeholder(j);
                lemma_placeholder(j);
                let r = mask_from(s, e, j + 1);
                let lit = s.subrange(b, e);
                assert(m.0 == pj + r.0);
                assert(m.1 == seq![lit] + r.1);
                let x = s.take(b);
                assert forall|i: int| 0 <= i < x.len() implies x[i] != pj[0] by {
                    assert(x[i] == s[i]);
                }
                crate::text::lemma_replace_skip_prefix(x, pj + r.0, pj, lit);
                assert((pj + r.0).subrange(0, pj.len() as int) =~= pj);
                assert((pj + r.0).skip(pj.len() as int) =~= r.0);
                assert(replace_spec(pj + r.0, pj, lit) == lit + replace_spec(r.0, pj, lit));
                assert forall|q: int| !occurs_at(r.0, pj, q) by {
                    lemma_mask_no_placeholder(s, e, j + 1, j, q);
                }
                crate::text::lemma_replace_absent(r.0, pj, lit);
                assert(x + (lit + r.0) =~= s.take(e) + r.0);
                assert(m.1.drop_first() =~= r.1);
                lemma_mask_restore(s, e, j + 1);
            },
            None => {
                let r = mask_from(s, b + 1, j);
                assert(m.0 == seq![s[b]] + r.0);
                assert(s.take(b) + m.0 =~= s.take(b + 1) + r.0);
                lemma_mask_restore(s, b + 1, j);
            },
        }
    }
}

/// Restoring the literals into the masked text gives the text back, for
/// text without NUL characters in which no literal is followed at once by
/// `LIT_<k>`, for a number `k` below its own, and then by another literal
/// (see `tag_between`; on such text the restoring takes the text between
/// the two placeholders for one).
pub proof fn law_mask_restore_roundtrip(s: Seq<char>)
    requires
        no_nul(s),
        no_tag_between_from(s, 0, 0),
    ensures
        restore_spec(mask_spec(s).0, mask_spec(s).1, mask_spec(s).1.len()) == s,
{
    lemma_mask_restore(s, 0, 0);
    assert(s.take(0) + mask_spec(s).0 =~= mask_spec(s).0);
    lemma_restore_from_spec(mask_spec(s).0, mask_spec(s).1, 0);
    assert(mask_spec(s).1.skip(0) =~= mask_spec(s).1);
}

/// No quote character in the text.
pub open spec fn quote_free(s: Seq<char>) -> bool {
    forall|i: int| 0 <= i < s.len() ==> #[trigger] s[i] != '"' && s[i] != '\''
}

/// Each literal starts with a quote character, or with `R"`.
pub open spec fn literal_starts(ls: Seq<Seq<char>>) -> bool {
    forall|k: int|
        0 <= k < ls.len() ==> {
            let l = #[trigger] ls[k];
            l.len() >= 1 && (l[0] == '"' || l[0] == '\'' || (l.len() >= 2 && l[0] == 'R' && l[1]
                == '"'))
        }
}

proof fn lemma_mask_shape(s: Seq<char>, b: int, n: nat)
    requires
        0 <= b,
    ensures
        quote_free(mask_from(s, b, n).0),
        literal_starts(mask_from(s, b, n).1),
    decreases s.len() - b,
{
    let m = mask_from(s, b, n);
    if b < s.len() {
        lemma_quoted_end(s, b + 1, s[b]);
        lemma_raw_end(s, b + 3);
        match literal_end(s, b) {
            Some(e) => {
                let r = mask_from(s, e, n + 1);
                lemma_mask_shape(s, e, n + 1);
                lemma_placeholder(n);
                crate::text::lemma_decimal(n);
                let pn = placeholder(n);
                assert(quote_free(pn)) by {
                    assert forall|i: int| 0 <= i < pn.len() implies #[trigger] pn[i] != '"'
                        && pn[i] != '\'' by {
                        if 5 <= i < pn.len() - 1 {
                            assert(pn[i] == decimal(n)[i - 5]);
                        }
                    }
                }
                assert(m.0 == pn + r.0);
                assert forall|i: int| 0 <= i < m.0.len() implies #[trigger] m.0[i] != '"'
                    && m.0[i] != '\'' by {
                    if i < pn.len() {
                        assert(m.0[i] == pn[i]);
                    } else {
                        assert(m.0[i] == r.0[i - pn.len()]);
                    }
                }
                let lit = s.subrange(b, e);
                assert(m.1 == seq![lit] + r.1);
                assert(lit[0] == s[b]);
                if s[b] == 'R' {
                    assert(lit[1] == s[b + 1]);
                }
                assert forall|k: int| 0 <= k < m.1.len() implies {
                    let l = #[trigger] m.1[k];
                    l.len() >= 1 && (l[0] == '"' || l[0] == '\'' || (l.len() >= 2 && l[0] == 'R'
                        && l[1] == '"'))
                } by {
                    if k > 0 {
                        assert(m.1[k] == r.1[k - 1]);
                    }
                }
            },
            None => {
                let r = mask_from(s, b + 1, n);
                lemma_mask_shape(s, b + 1, n);
                assert(m.0 == seq![s[b]] + r.0);
                assert forall|i: int| 0 <= i < m.0.len() implies #[trigger] m.0[i] != '"'
                    && m.0[i] != '\'' by {
                    if i > 0 {
                        assert(m.0[i] == r.0[i - 1]);
                    }
                }
            },
        }
    }
}

/// Masking leaves no quote character in the masked text, and each literal
/// taken out starts with a quote character or with `R"`.
pub proof fn law_mask_shape(s: Seq<char>)
    ensures
        quote_free(mask_spec(s).0),
        literal_starts(mask_spec(s).1),
{
    lemma_mask_shape(s, 0, 0);
}

/// `s` with its literals masked, and the literals.
pub open spec fn mask_spec(s: Seq<char>) -> (Seq<char>, Seq<Seq<char>>) {
    mask_from(s, 0, 0)
}

fn scan_quoted(s: &Vec<char>, k: usize, q: char) -> (e: usize)
    requires
        1 <= k,
    ensures
        e == quoted_end(s@, k as int, q),
{
    let mut j = k;
    while j < s.len() && !(s[j] == q && s[j - 1] != '\\')
        invariant
            1 <= k <= j,
            quoted_end(s@, k as int, q) == quoted_end(s@, j as int, q),
        decreases s@.len() - j,
    {
        j = j + 1;
    }
    if j < s.len() {
        j + 1
    } else {
        s.len()
    }
}

fn scan_raw(s: &Vec<char>, k: usize) -> (e: usize)
    ensures
        e == raw_end(s@, k as int),
{
    let mut j = k;
    while j < s.len() && s[j] != '"'
        invariant
            k <= j,
            raw_end(s@, k as int) == raw_end(s@, j as int),
        decreases s@.len() - j,
    {
        j = j + 1;
    }
    if j < s.len() {
        j + 1
    } else {
        s.len()
    }
}

/// Replaces every string, character and raw literal of `code` by a
/// placeholder `\0LIT_<n>\0`, numbered from 0 in order, and returns the
/// masked text with the literals.
pub fn mask_literals(code: &str) -> (r: (String, Vec<String>))
    ensures
        r.0@ == mask_spec(code@).0,
        string_views(r.1@) == mask_spec(code@).1,
        quote_free(r.0@),
        literal_starts(string_views(r.1@)),
{
    proof {
        law_mask_shape(code@);
    }
    let s = chars_of(code);
    let mut masked: Vec<char> = Vec::new();
    let mut lits: Vec<String> = Vec::new();
    let mut i: usize = 0;
    while i < s.len()
        invariant
            i <= s@.len(),
            s@ == code@,
            masked@ + mask_from(s@, i as int, lits@.len()).0 == mask_spec(s@).0,
            string_views(lits@) + mask_from(s@, i as int, lits@.len()).1 == mask_spec(s@).1,
        decreases s@.len() - i,
    {
        let c = s[i];
        proof {
            lemma_quoted_end(s@, i + 1, c);
            lemma_raw_end(s@, i + 3);
        }
        let ghost n = lits@.len();
        let ghost old_masked = masked@;
        let ghost old_lits = string_views(lits@);
        let end: Option<usize> = if c == '"' || c == '\'' {
            Some(scan_quoted(&s, i + 1, c))
        } else if c == 'R' && i + 1 < s.len() && s[i + 1] == '"' {
            if i + 2 < s.len() {
                Some(scan_raw(&s, i + 3))
            } else {
                Some(s.len())
            }
        } else {
            None
        };
        match end {
            Some(e) => {
                append_str(&mut masked, "\u{0}LIT_");
                push_decimal(&mut masked, lits.len());
                append_str(&mut masked, "\u{0}");
                let lit = string_of(&crate::text::slice_of(&s, i, e));
                lits.push(lit);
                assert(masked@ =~= old_masked + placeholder(n));
                assert(string_views(lits@) =~= old_lits.push(s@.subrange(i as int, e as int)));
                assert(masked@ + mask_from(s@, e as int, lits@.len()).0 =~= mask_spec(s@).0);
                assert(string_views(lits@) + mask_from(s@, e as int, lits@.len()).1
                    =~= mask_spec(s@).1);
                i = e;
            },
            None => {
                masked.push(c);
                assert(masked@ + mask_from(s@, i + 1, lits@.len()).0 =~= mask_spec(s@).0);
                i = i + 1;
            },
        }
    }
    (string_of(&masked), lits)
}


// ---------------------------------------------------------------------
// `panic!` calls
// ---------------------------------------------------------------------

/// Whether `c` is alphabetic or numeric in the Unicode sense
/// (`char::is_alphanumeric`).
pub uninterp spec fn char_is_alphanumeric(c: char) -> bool;

/// `char::is_alphanumeric`. Stated: the result is the named property of
/// `c`, and for ASCII characters it holds exactly of letters and digits.
/// Unstated: which non-ASCII characters have it (Unicode tables).
#[verifier::external_body]
fn is_alphanumeric(c: char) -> (b: bool)
    ensures
        b == char_is_alphanumeric(c),
        (c as u32) < 0x80 ==> (b == (('a' <= c && c <= 'z') || ('A' <= c && c <= 'Z') || ('0' <= c
            && c <= '9'))),
{
    c.is_alphanumeric()
}

/// The end of the run of spaces (`' '` only) that starts at `p`.
pub open spec fn blank_end(s: Seq<char>, p: int) -> int
    decreases s.len() - p,
{
    if p < 0 || p >= s.len() || s[p] != ' ' {
        p
    } else {
        blank_end(s, p + 1)
    }
}

/// Reads the arguments of a call from `p` on at nesting depth `depth`:
/// gives the position after the closing parenthesis (or the end) and the
/// text up to it, with the inner parentheses.
pub open spec fn paren_args(s: Seq<char>, p: int, depth: int, acc: Seq<char>) -> (int, Seq<char>)
    decreases s.len() - p,
{
    if p < 0 || p >= s.len() {
        (s.len() as int, acc)
    } else {
        let nc = s[p];
        let d = if nc == '(' {
            depth + 1
        } else if nc == ')' {
            depth - 1
        } else {
            depth
        };
        if d == 0 {
            (p + 1, acc)
        } else {
            paren_args(s, p + 1, d, acc.push(nc))
        }
    }
}

pub proof fn lemma_blank_end(s: Seq<char>, p: int)
    requires
        0 <= p <= s.len(),
    ensures
        p <= blank_end(s, p) <= s.len(),
    decreases s.len() - p,
{
    if p < s.len() && s[p] == ' ' {
        lemma_blank_end(s, p + 1);
    }
}

pub proof fn lemma_paren_args(s: Seq<char>, p: int, depth: int, acc: Seq<char>)
    requires
        0 <= p <= s.len(),
    ensures
        p <= paren_args(s, p, depth, acc).0 <= s.len(),
        p < s.len() ==> p < paren_args(s, p, depth, acc).0,
    decreases s.len() - p,
{
    if p < s.len() {
        let nc = s[p];
        let d = if nc == '(' {
            depth + 1
        } else if nc == ')' {
            depth - 1
        } else {
            depth
        };
        if d != 0 {
            lemma_paren_args(s, p + 1, d, acc.push(nc));
        }
    }
}

/// The text that a `panic!(` is replaced by, before its arguments.
pub open spec fn panic_call_prefix(module: Seq<char>) -> Seq<char> {
    "__panic_here(__FILE__, __LINE__, \""@ + module + "\", "@
}

/// Whether the scan at position `p` is at a `panic!` to replace: the input
/// reads `panic!` from `p` on, and the output so far does not end in a
/// letter, digit or `_`.
pub open spec fn at_panic(code: Seq<char>, p: int, out: Seq<char>) -> bool {
    &&& occurs_at(code, "panic!"@, p)
    &&& (out.len() == 0 || (!char_is_alphanumeric(out.last()) && out.last() != '_'))
}

/// The rewriting of `code[p..]` given the output `out` so far: each
/// character is copied, except where the scan is at a `panic!` (see
/// `at_panic`). There the five characters after the current one and the
/// spaces after them are consumed; if a `(` follows, the call up to its
/// matching `)` becomes `__panic_here(__FILE__, __LINE__, "<module>",
/// <args>)`, and otherwise the current character alone is copied.
pub open spec fn panic_from(code: Seq<char>, p: int, out: Seq<char>, module: Seq<char>) -> Seq<char>
    decreases code.len() - p,
{
    if p < 0 || p >= code.len() {
        out
    } else {
        let c = code[p];
        if at_panic(code, p, out) {
            let p2 = if p + 6 <= code.len() {
                p + 6
            } else {
                code.len() as int
            };
            let p3 = blank_end(code, p2);
            proof {
                lemma_blank_end(code, p2);
            }
            if p3 < code.len() && code[p3] == '(' {
                let a = paren_args(code, p3 + 1, 1, seq![]);
                proof {
                    lemma_paren_args(code, p3 + 1, 1, seq![]);
                }
                panic_from(code, a.0, out + panic_call_prefix(module) + a.1 + ")"@, module)
            } else {
                panic_from(code, p3, out.push(c), module)
            }
        } else {
            panic_from(code, p + 1, out.push(c), module)
        }
    }
}

/// The rewriting of the `panic!` calls of `code`.
pub open spec fn replace_panic_spec(code: Seq<char>, module: Seq<char>) -> Seq<char> {
    panic_from(code, 0, seq![], module)
}

proof fn lemma_panic_free(code: Seq<char>, p: int, out: Seq<char>, module: Seq<char>)
    requires
        0 <= p <= code.len(),
        forall|i: int| !occurs_at(code, "panic!"@, i),
    ensures
        panic_from(code, p, out, module) == out + code.skip(p),
    decreases code.len() - p,
{
    if p < code.len() {
        assert(!at_panic(code, p, out));
        lemma_panic_free(code, p + 1, out.push(code[p]), module);
        assert(out.push(code[p]) + code.skip(p + 1) =~= out + code.skip(p));
    } else {
        assert(out + code.skip(p) =~= out);
    }
}

/// Text in which `panic!` does not occur is left unchanged by the `panic!`
/// rewrite.
pub proof fn law_panic_free_unchanged(code: Seq<char>, module: Seq<char>)
    requires
        forall|i: int| !occurs_at(code, "panic!"@, i),
    ensures
        replace_panic_spec(code, module) == code,
{
    lemma_panic_free(code, 0, seq![], module);
    assert(seq![] + code.skip(0) =~= code);
}

proof fn lemma_panic_copy(s: Seq<char>, p: int, n: int, out: Seq<char>, module: Seq<char>)
    requires
        0 <= p <= n <= s.len(),
        forall|i: int| 0 <= i < n ==> !occurs_at(s, "panic!"@, i),
    ensures
        panic_from(s, p, out, module) == panic_from(s, n, out + s.subrange(p, n), module),
    decreases n - p,
{
    if p < n {
        assert(!at_panic(s, p, out));
        lemma_panic_copy(s, p + 1, n, out.push(s[p]), module);
        assert(out.push(s[p]) + s.subrange(p + 1, n) =~= out + s.subrange(p, n));
    } else {
        assert(out + s.subrange(p, p) =~= out);
    }
}

proof fn lemma_paren_plain(s: Seq<char>, p: int, q: int, acc: Seq<char>)
    requires
        0 <= p <= q < s.len(),
        s[q] == ')',
        forall|i: int| p <= i < q ==> s[i] != '(' && s[i] != ')',
    ensures
        paren_args(s, p, 1, acc) == (q + 1, acc + s.subrange(p, q)),
    decreases q - p,
{
    if p < q {
        lemma_paren_plain(s, p + 1, q, acc.push(s[p]));
        assert(acc.push(s[p]) + s.subrange(p + 1, q) =~= acc + s.subrange(p, q));
    } else {
        assert(acc + s.subrange(q, q) =~= acc);
    }
}

/// A `panic!(..)` call is rewritten wherever the character before it is
/// neither a letter, a digit nor `_` (a tab, a brace, a parenthesis, a
/// space, or nothing): text `t` without `panic!` followed by a call with
/// arguments `args` (which hold no parentheses) becomes `t` followed by
/// `__panic_here(__FILE__, __LINE__, "<module>", <args>)`.
pub proof fn law_panic_call_after_boundary(t: Seq<char>, args: Seq<char>, module: Seq<char>)
    requires
        forall|i: int| !occurs_at(t, "panic!"@, i),
        t.len() == 0 || (!char_is_alphanumeric(t.last()) && t.last() != '_'),
        forall|i: int| 0 <= i < args.len() ==> args[i] != '(' && args[i] != ')',
    ensures
        replace_panic_spec(t + "panic!("@ + args + ")"@, module) == t
            + "__panic_here(__FILE__, __LINE__, \""@ + module + "\", "@ + args + ")"@,
{
    reveal_strlit("panic!");
    reveal_strlit("panic!(");
    reveal_strlit(")");
    let kw = "panic!"@;
    let s = t + "panic!("@ + args + ")"@;
    let n = t.len() as int;
    assert(s.len() == n + 7 + args.len() + 1);
    assert(s[n] == 'p');
    assert forall|i: int| 0 <= i < n implies !occurs_at(s, kw, i) by {
        if occurs_at(s, kw, i) {
            if i + 6 <= n {
                assert(s.subrange(i, i + 6) =~= t.subrange(i, i + 6));
                assert(occurs_at(t, kw, i));
            } else {
                let k = n - i;
                assert(s.subrange(i, i + 6)[k] == s[n]);
                assert(kw[k] != 'p');
            }
        }
    }
    lemma_panic_copy(s, 0, n, seq![], module);
    assert(seq![] + s.subrange(0, n) =~= t);
    assert(s.subrange(n, n + 6) =~= kw);
    assert(at_panic(s, n, t));
    assert(s[n + 6] == '(');
    assert(blank_end(s, n + 6) == n + 6);
    let q = s.len() - 1;
    assert forall|i: int| n + 7 <= i < q implies s[i] != '(' && s[i] != ')' by {
        assert(s[i] == args[i - n - 7]);
    }
    lemma_paren_plain(s, n + 7, q, seq![]);
    assert(s.subrange(n + 7, q) =~= args);
    assert(seq![] + args =~= args);
    assert(panic_from(s, s.len() as int, t + panic_call_prefix(module) + args + ")"@, module) == t
        + panic_call_prefix(module) + args + ")"@);
    assert(t + panic_call_prefix(module) + args + ")"@ =~= t
        + "__panic_here(__FILE__, __LINE__, \""@ + module + "\", "@ + args + ")"@);
}

/// A `panic!` that follows a letter, a digit or `_` is part of a longer
/// name and is left alone: text `t` without `panic!` that ends in such a
/// character, followed by `panic!(<args>)` (the arguments holding no
/// parentheses and no `panic!`), is kept as it is.
pub proof fn law_panic_inside_name_kept(t: Seq<char>, args: Seq<char>, module: Seq<char>)
    requires
        forall|i: int| !occurs_at(t, "panic!"@, i),
        t.len() > 0,
        char_is_alphanumeric(t.last()) || t.last() == '_',
        forall|i: int| 0 <= i < args.len() ==> args[i] != '(' && args[i] != ')',
        forall|i: int| !occurs_at(args, "panic!"@, i),
    ensures
        replace_panic_spec(t + "panic!("@ + args + ")"@, module) == t + "panic!("@ + args + ")"@,
{
    reveal_strlit("panic!");
    reveal_strlit("panic!(");
    reveal_strlit(")");
    let kw = "panic!"@;
    let s = t + "panic!("@ + args + ")"@;
    let n = t.len() as int;
    assert(s.len() == n + 7 + args.len() + 1);
    assert(s[n] == 'p');
    assert forall|i: int| 0 <= i < n implies !occurs_at(s, kw, i) by {
        if occurs_at(s, kw, i) {
            if i + 6 <= n {
                assert(s.subrange(i, i + 6) =~= t.subrange(i, i + 6));
                assert(occurs_at(t, kw, i));
            } else {
                let k = n - i;
                assert(s.subrange(i, i + 6)[k] == s[n]);
                assert(kw[k] != 'p');
            }
        }
    }
    lemma_panic_copy(s, 0, n, seq![], module);
    assert(seq![] + s.subrange(0, n) =~= t);
    assert(!at_panic(s, n, t));
    assert forall|i: int| n + 1 <= i < s.len() implies !occurs_at(s, kw, i) by {
        if occurs_at(s, kw, i) {
            assert(s.subrange(i, i + 6)[0] == s[i]);
            if i < n + 7 {
                assert(s[i] == "panic!("@[i - n]);
            } else if i + 6 <= n + 7 + args.len() {
                assert(s.subrange(i, i + 6) =~= args.subrange(i - n - 7, i - n - 1));
                assert(occurs_at(args, kw, i - n - 7));
            } else {
                assert(s.subrange(i, i + 6)[5] == s[i + 5]);
                assert(s[s.len() - 1] == ')');
                if i + 5 < s.len() - 1 {
                    assert(s[i + 5] == args[i + 5 - n - 7]);
                }
            }
        }
    }
    lemma_panic_shift_free(s, n + 1, t.push('p'), module);
    assert(t.push('p') + s.subrange(n + 1, s.len() as int) =~= s);
}

proof fn lemma_panic_shift_free(s: Seq<char>, p: int, out: Seq<char>, module: Seq<char>)
    requires
        0 <= p <= s.len(),
        forall|i: int| p <= i < s.len() ==> !occurs_at(s, "panic!"@, i),
    ensures
        panic_from(s, p, out, module) == out + s.subrange(p, s.len() as int),
    decreases s.len() - p,
{
    if p < s.len() {
        assert(!at_panic(s, p, out));
        lemma_panic_shift_free(s, p + 1, out.push(s[p]), module);
        assert(out.push(s[p]) + s.subrange(p + 1, s.len() as int) =~= out + s.subrange(
            p,
            s.len() as int,
        ));
    } else {
        assert(out + s.subrange(p, p) =~= out);
    }
}

/// No literal starts in the text: no quote character and no `R"`.
pub open spec fn literal_free(s: Seq<char>) -> bool {
    forall|i: int|
        0 <= i < s.len() ==> #[trigger] s[i] != '"' && s[i] != '\'' && !(s[i] == 'R' && i + 1
            < s.len() && s[i + 1] == '"')
}

proof fn lemma_mask_literal_free(s: Seq<char>, i: int, n: nat)
    requires
        0 <= i <= s.len(),
        literal_free(s),
    ensures
        mask_from(s, i, n) == (s.skip(i), Seq::<Seq<char>>::empty()),
    decreases s.len() - i,
{
    if i < s.len() {
        assert(s[i] != '"' && s[i] != '\'' && !(s[i] == 'R' && i + 1 < s.len() && s[i + 1] == '"'));
        lemma_mask_literal_free(s, i + 1, n);
        assert(seq![s[i]] + s.skip(i + 1) =~= s.skip(i));
    } else {
        assert(s.skip(i) =~= Seq::<char>::empty());
    }
}

/// Text without literals is left as it is by masking, and gives no
/// literals.
pub proof fn law_mask_literal_free(s: Seq<char>)
    requires
        literal_free(s),
    ensures
        mask_spec(s).0 == s,
        mask_spec(s).1.len() == 0,
{
    lemma_mask_literal_free(s, 0, 0);
    assert(s.skip(0) =~= s);
}

/// Rewrites every `panic!(..)` call of `code` (one not preceded by a
/// letter, digit or `_`) into a call of `__panic_here` that carries the
/// file, the line and `module_name`; of a `panic!` without `(` after it
/// (and after spaces), only the `p` is kept.
pub fn replace_panic(code: &str, module_name: &str) -> (r: String)
    ensures
        r@ == replace_panic_spec(code@, module_name@),
{
    let s = chars_of(code);
    let kw = chars_of("panic!");
    let mut prefix: Vec<char> = Vec::new();
    append_str(&mut prefix, "__panic_here(__FILE__, __LINE__, \"");
    append_str(&mut prefix, module_name);
    append_str(&mut prefix, "\", ");
    assert(prefix@ =~= panic_call_prefix(module_name@));
    let close = chars_of(")");
    let mut out: Vec<char> = Vec::new();
    let mut p: usize = 0;
    while p < s.len()
        invariant
            p <= s@.len(),
            s@ == code@,
            kw@ == "panic!"@,
            prefix@ == panic_call_prefix(module_name@),
            close@ == ")"@,
            panic_from(s@, p as int, out@, module_name@) == replace_panic_spec(s@, module_name@),
        decreases s@.len() - p,
    {
        let c = s[p];
        let boundary = if out.len() == 0 {
            true
        } else {
            let pc = out[out.len() - 1];
            !is_alphanumeric(pc) && pc != '_'
        };
        let hit = matches_at(&s, &kw, p) && boundary;
        assert(hit == at_panic(s@, p as int, out@)) by {
            reveal_strlit("panic!");
        }
        if hit {
            proof {
                reveal_strlit("panic!");
            }
            let mut q = p + 6;
            let ghost p2 = q;
            while q < s.len() && s[q] == ' '
                invariant
                    p2 <= q <= s@.len(),
                    blank_end(s@, p2 as int) == blank_end(s@, q as int),
                decreases s@.len() - q,
            {
                q = q + 1;
            }
            if q < s.len() && s[q] == '(' {
                let mut depth: usize = 1;
                let mut args: Vec<char> = Vec::new();
                let mut k = q + 1;
                let ghost start = k;
                let mut end: usize = s.len();
                let mut found = false;
                while k < s.len() && !found
                    invariant
                        start <= k <= s@.len(),
                        start <= end <= s@.len(),
                        p < start,
                        !found ==> end == s@.len(),
                        1 <= start,
                        1 <= depth <= k - start + 1,
                        !found ==> paren_args(s@, start as int, 1, seq![]) == paren_args(
                            s@,
                            k as int,
                            depth as int,
                            args@,
                        ),
                        found ==> paren_args(s@, start as int, 1, seq![]) == (end as int, args@),
                    decreases s@.len() - k,
                {
                    let nc = s[k];
                    let nd = if nc == '(' {
                        depth + 1
                    } else if nc == ')' {
                        depth - 1
                    } else {
                        depth
                    };
                    if nd == 0 {
                        end = k + 1;
                        found = true;
                    } else {
                        depth = nd;
                        args.push(nc);
                    }
                    k = k + 1;
                }
                if !found {
                    assert(paren_args(s@, k as int, depth as int, args@) == (
                        s@.len() as int,
                        args@,
                    ));
                }
                assert(paren_args(s@, start as int, 1, seq![]) == (end as int, args@));
                append_chars(&mut out, &prefix);
                append_chars(&mut out, &args);
                append_chars(&mut out, &close);
                p = end;
            } else {
                out.push(c);
                p = q;
            }
        } else {
            out.push(c);
            p = p + 1;
        }
    }
    string_of(&out)
}


// ---------------------------------------------------------------------
// Restoring literals
// ---------------------------------------------------------------------

/// `t` with the placeholders of the first `k` literals replaced by the
/// literals, one placeholder number after the other.
pub open spec fn restore_spec(t: Seq<char>, lits: Seq<Seq<char>>, k: nat) -> Seq<char>
    decreases k,
{
    if k == 0 {
        t
    } else {
        replace_spec(restore_spec(t, lits, (k - 1) as nat), placeholder((k - 1) as nat), lits[k - 1])
    }
}

/// Puts the masked literals back: each placeholder `\0LIT_<i>\0` is
/// replaced everywhere by the `i`-th literal, for `i` from 0 on.
pub fn restore_literals(text: &str, literals: &Vec<String>) -> (r: String)
    ensures
        r@ == restore_spec(text@, string_views(literals@), literals@.len()),
{
    let mut res = chars_of(text);
    let mut i: usize = 0;
    while i < literals.len()
        invariant
            i <= literals@.len(),
            res@ == restore_spec(text@, string_views(literals@), i as nat),
        decreases literals@.len() - i,
    {
        let mut ph: Vec<char> = Vec::new();
        append_str(&mut ph, "\u{0}LIT_");
        push_decimal(&mut ph, i);
        append_str(&mut ph, "\u{0}");
        assert(ph@ =~= placeholder(i as nat));
        proof {
            reveal_strlit("\u{0}LIT_");
        }
        let lit = chars_of(literals[i].as_str());
        res = replace_chars(&res, &ph, &lit);
        i = i + 1;
    }
    string_of(&res)
}

/// The last steps of the syntax translation, applied to the text after the
/// pattern rewrites: the marked signature types and parameters are
/// translated, `panic!` calls are rewritten, then the literals put back.
pub open spec fn finish_spec(rewritten: Seq<char>, lits: Seq<Seq<char>>, module: Seq<char>) -> Seq<
    char,
> {
    restore_spec(replace_panic_spec(unmark_spec(rewritten), module), lits, lits.len())
}

/// Translates the marked signature parts of the pattern-rewritten text,
/// rewrites its `panic!` calls and puts the masked literals back.
pub fn finish_rcpp_syntax(rewritten: &str, literals: &Vec<String>, module_name: &str) -> (r: String)
    ensures
        r@ == finish_spec(rewritten@, string_views(literals@), module_name@),
{
    let u = resolve_signature_marks(rewritten);
    let p = replace_panic(u.as_str(), module_name);
    restore_literals(p.as_str(), literals)
}

// ---------------------------------------------------------------------
// Signature types and parameters
// ---------------------------------------------------------------------

/// The C++ name of an RC++ type in a signature: `i32` becomes `int32_t`;
/// any other type is kept as written.
pub open spec fn cpp_type(t: Seq<char>) -> Seq<char> {
    if t == "i32"@ {
        "int32_t"@
    } else {
        t
    }
}

/// Translates one type name.
pub fn map_type(t: &Vec<char>) -> (r: Vec<char>)
    ensures
        r@ == cpp_type(t@),
{
    if chars_eq(t, &chars_of("i32")) {
        chars_of("int32_t")
    } else {
        slice_of(t, 0, t.len())
    }
}

/// The white space at the start of `s`.
pub open spec fn leading_space(s: Seq<char>) -> Seq<char>
    decreases s.len(),
{
    if s.len() > 0 && is_space(s[0]) {
        seq![s[0]] + leading_space(s.drop_first())
    } else {
        seq![]
    }
}

/// Copies the white space at the start of `v`.
fn leading_space_of(v: &Vec<char>) -> (r: Vec<char>)
    ensures
        r@ == leading_space(v@),
{
    let mut i: usize = 0;
    assert(v@.take(0) + v@.skip(0) =~= v@);
    assert(v@.take(0) =~= Seq::<char>::empty());
    assert(v@.skip(0) =~= v@);
    while i < v.len() && is_space_char(v[i])
        invariant
            i <= v@.len(),
            leading_space(v@) == v@.take(i as int) + leading_space(v@.skip(i as int)),
        decreases v@.len() - i,
    {
        let ghost rest = v@.skip(i as int);
        assert(rest.drop_first() =~= v@.skip(i + 1));
        assert(rest[0] == v@[i as int]);
        assert(v@.take(i + 1) =~= v@.take(i as int) + seq![v@[i as int]]);
        i = i + 1;
    }
    if i == v.len() {
        assert(v@.skip(i as int).len() == 0);
    }
    let r = slice_of(v, 0, i);
    assert(r@ =~= v@.take(i as int));
    assert(leading_space(v@) =~= r@);
    r
}

/// One parameter `name: Type` becomes `CppType name` (both parts trimmed,
/// the white space before the parameter kept); a parameter without `:` is
/// kept as written.
pub open spec fn cpp_param(piece: Seq<char>) -> Seq<char> {
    let t = trim_spec(piece);
    let k = char_end(t, 0, ':');
    if k < t.len() {
        leading_space(piece) + cpp_type(trim_spec(t.skip(k + 1))) + " "@ + trim_spec(t.take(k))
    } else {
        piece
    }
}

/// A parameter list: split at `,`, each parameter translated, joined by
/// `,` again.
pub open spec fn cpp_params(args: Seq<char>) -> Seq<char> {
    join_spec(split_spec(args, ',').map_values(|p: Seq<char>| cpp_param(p)), ","@)
}

/// Translates one parameter.
fn map_param(piece: &Vec<char>) -> (r: Vec<char>)
    ensures
        r@ == cpp_param(piece@),
{
    let t = trim(piece);
    let k = find_char(&t, ':');
    proof {
        lemma_char_end_bounds(t@, 0, ':');
    }
    if k < t.len() {
        let name = trim(&slice_of(&t, 0, k));
        let ty = trim(&slice_of(&t, k + 1, t.len()));
        assert(t@.take(k as int) =~= t@.subrange(0, k as int));
        assert(t@.skip(k + 1) =~= t@.subrange(k + 1, t@.len() as int));
        let mut r = leading_space_of(piece);
        let m = map_type(&ty);
        append_chars(&mut r, &m);
        r.push(' ');
        append_chars(&mut r, &name);
        proof {
            reveal_strlit(" ");
        }
        assert(r@ =~= leading_space(piece@) + cpp_type(trim_spec(t@.skip(k + 1))) + " "@
            + trim_spec(t@.take(k as int)));
        r
    } else {
        slice_of(piece, 0, piece.len())
    }
}

/// Translates a parameter list.
pub fn map_params(args: &Vec<char>) -> (r: Vec<char>)
    ensures
        r@ == cpp_params(args@),
{
    let pieces = split_char(args, ',');
    let ghost ps = split_spec(args@, ',');
    let mut mapped: Vec<Vec<char>> = Vec::new();
    let mut i: usize = 0;
    while i < pieces.len()
        invariant
            i <= pieces@.len(),
            views(pieces@) == ps,
            views(mapped@) == ps.map_values(|p: Seq<char>| cpp_param(p)).take(i as int),
        decreases pieces@.len() - i,
    {
        let m = map_param(&pieces[i]);
        assert(pieces@[i as int]@ == ps[i as int]);
        let ghost old_m = mapped@;
        mapped.push(m);
        assert(views(mapped@) =~= views(old_m).push(cpp_param(ps[i as int])));
        i = i + 1;
        assert(views(mapped@) =~= ps.map_values(|p: Seq<char>| cpp_param(p)).take(i as int));
    }
    assert(ps.map_values(|p: Seq<char>| cpp_param(p)).take(i as int) =~= ps.map_values(
        |p: Seq<char>| cpp_param(p),
    ));
    let sep = chars_of(",");
    join_chars(&mapped, &sep)
}

/// The text from position `i` on with the marked signature parts resolved:
/// a return type between the marks U+0001 and U+0002 is translated by
/// `cpp_type`, a parameter list between U+0003 and U+0004 by `cpp_params`
/// (a part without its closing mark runs to the end); the marks go, every
/// other character is kept.
pub open spec fn unmark_from(s: Seq<char>, i: int) -> Seq<char>
    decreases s.len() + 1 - i,
{
    if i < 0 || i >= s.len() {
        seq![]
    } else if s[i] == '\u{1}' || s[i] == '\u{3}' {
        let close = if s[i] == '\u{1}' {
            '\u{2}'
        } else {
            '\u{4}'
        };
        proof {
            lemma_char_end_bounds(s, i + 1, close);
        }
        let e = char_end(s, i + 1, close);
        let inner = s.subrange(i + 1, e);
        (if s[i] == '\u{1}' {
            cpp_type(inner)
        } else {
            cpp_params(inner)
        }) + unmark_from(s, e + 1)
    } else {
        seq![s[i]] + unmark_from(s, i + 1)
    }
}

/// The text with its marked signature parts resolved.
pub open spec fn unmark_spec(s: Seq<char>) -> Seq<char> {
    unmark_from(s, 0)
}

/// Resolves the marked signature parts of the pattern-rewritten text.
pub fn resolve_signature_marks(text: &str) -> (r: String)
    ensures
        r@ == unmark_spec(text@),
{
    let v = chars_of(text);
    let mut out: Vec<char> = Vec::new();
    let mut i: usize = 0;
    while i < v.len()
        invariant
            i <= v@.len(),
            out@ + unmark_from(v@, i as int) == unmark_from(v@, 0),
        decreases v@.len() - i,
    {
        let c = v[i];
        if c == '\u{1}' || c == '\u{3}' {
            let close = if c == '\u{1}' {
                '\u{2}'
            } else {
                '\u{4}'
            };
            let e = find_char_from(&v, i + 1, close);
            proof {
                lemma_char_end_bounds(v@, i + 1, close);
            }
            let inner = slice_of(&v, i + 1, e);
            let m = if c == '\u{1}' {
                map_type(&inner)
            } else {
                map_params(&inner)
            };
            let ghost old_out = out@;
            append_chars(&mut out, &m);
            let ni = if e < v.len() {
                e + 1
            } else {
                v.len()
            };
            assert(unmark_from(v@, e + 1) == unmark_from(v@, ni as int));
            assert(inner@ == v@.subrange(i + 1, e as int));
            assert(m@ == (if c == '\u{1}' {
                cpp_type(v@.subrange(i + 1, e as int))
            } else {
                cpp_params(v@.subrange(i + 1, e as int))
            }));
            assert(unmark_from(v@, i as int) == m@ + unmark_from(v@, ni as int));
            assert(out@ + unmark_from(v@, ni as int) =~= old_out + unmark_from(v@, i as int));
            i = ni;
        } else {
            let ghost old_out = out@;
            out.push(c);
            assert(out@ + unmark_from(v@, i + 1) =~= old_out + unmark_from(v@, i as int));
            i = i + 1;
        }
    }
    assert(out@ + unmark_from(v@, i as int) =~= out@);
    string_of(&out)
}

// ---------------------------------------------------------------------
// Pattern rewrites
// ---------------------------------------------------------------------

/// What replacing every match of the regular expression `pattern` in `text`
/// by `rep` (with `$n` / `${n}` group references) gives, or `None` when
/// `pattern` is not a valid expression.
pub uninterp spec fn regex_replace_all_result(
    pattern: Seq<char>,
    text: Seq<char>,
    rep: Seq<char>,
) -> Option<Seq<char>>;

/// The five fixed patterns of the rewrites.
pub open spec fn fixed_rewrite_pattern(p: Seq<char>) -> bool {
    ||| p == r"\blet(\s+[a-zA-Z_][a-zA-Z0-9_]*)"@
    ||| p == r"\bmut(\s+[a-zA-Z_][a-zA-Z0-9_]*)"@
    ||| p == r"\bfn\s+(\w+)\s*\(([^)]*)\)\s*->\s*(\w+)\s*;"@
    ||| p == r"\bfn\s+([a-zA-Z_][a-zA-Z0-9_:]*)\s*\(([^)]*)\)\s*->\s*([a-zA-Z_][a-zA-Z0-9_:]*)\s*(\{)"@
    ||| p == r"\bfn\s+([a-zA-Z_][a-zA-Z0-9_:]*)\s*\(([^)]*)\)\s*(\{)"@
}

/// `regex::Regex::new(pattern)` followed by `Regex::replace_all(text, rep)`.
/// Stated: the result is the named function of the three strings, `None`
/// exactly where the pattern does not compile, and each of the five fixed
/// rewrite patterns compiles: `Regex::new` fails only on a pattern outside
/// the documented syntax or one whose compiled size passes the default
/// limit (the documentation's failing example repeats `\w` a thousand
/// times), and these use documented syntax (`\b`, `\s`, `\w`, classes,
/// groups, repetition, an escaped `{`) with a few classes each. Unstated: the
/// matching and replacement semantics of the `regex` crate.
#[verifier::external_body]
fn regex_replace_all(pattern: &str, text: &str, rep: &str) -> (r: Option<String>)
    ensures
        match r {
            Some(t) => regex_replace_all_result(pattern@, text@, rep@) == Some(t@),
            None => regex_replace_all_result(pattern@, text@, rep@) is None,
        },
        fixed_rewrite_pattern(pattern@) ==> r is Some,
{
    match regex::Regex::new(pattern) {
        Ok(re) => Some(re.replace_all(text, rep).into_owned()),
        Err(_) => None,
    }
}

/// One rewrite applied to the text so far, if there is one.
pub open spec fn then_rewrite(t: Option<Seq<char>>, pattern: Seq<char>, rep: Seq<char>) -> Option<
    Seq<char>,
> {
    match t {
        Some(x) => regex_replace_all_result(pattern, x, rep),
        None => None,
    }
}

/// The pattern rewrites, in order, of a masked line:
/// `let x` to `const auto x`, `mut x` to `auto x`,
/// `fn f(args) -> T;` to `T f(args);`, `fn f(args) -> T {` to
/// `T f(args) {` and `fn f(args) {` to `auto f(args) {`. The return type is
/// marked by U+0001 and U+0002 and the parameters by U+0003 and U+0004, for
/// `unmark_spec` to translate.
pub open spec fn pattern_rewrites(masked: Seq<char>) -> Option<Seq<char>> {
    let t1 = then_rewrite(
        Some(masked),
        r"\blet(\s+[a-zA-Z_][a-zA-Z0-9_]*)"@,
        "const auto$1"@,
    );
    let t2 = then_rewrite(t1, r"\bmut(\s+[a-zA-Z_][a-zA-Z0-9_]*)"@, "auto$1"@);
    let t3 = then_rewrite(
        t2,
        r"\bfn\s+(\w+)\s*\(([^)]*)\)\s*->\s*(\w+)\s*;"@,
        "\u{1}${3}\u{2} ${1}(\u{3}${2}\u{4});"@,
    );
    let t4 = then_rewrite(
        t3,
        r"\bfn\s+([a-zA-Z_][a-zA-Z0-9_:]*)\s*\(([^)]*)\)\s*->\s*([a-zA-Z_][a-zA-Z0-9_:]*)\s*(\{)"@,
        "\u{1}${3}\u{2} ${1}(\u{3}${2}\u{4}) ${4}"@,
    );
    then_rewrite(
        t4,
        r"\bfn\s+([a-zA-Z_][a-zA-Z0-9_:]*)\s*\(([^)]*)\)\s*(\{)"@,
        "auto ${1}(\u{3}${2}\u{4}) ${3}"@,
    )
}

/// The C++ text of one RC++ line: literals masked, pattern rewrites,
/// signature types and parameters translated, `panic!` calls rewritten,
/// literals restored; `None` where a rewrite pattern does not compile.
pub open spec fn rcpp_syntax_spec(content: Seq<char>, module: Seq<char>) -> Option<Seq<char>> {
    let m = mask_spec(content);
    match pattern_rewrites(m.0) {
        Some(t) => Some(finish_spec(t, m.1, module)),
        None => None,
    }
}

/// One pattern rewrite.
fn rewrite_step(t: &String, pattern: &str, rep: &str) -> (r: Result<String, RcppError>)
    ensures
        match r {
            Ok(x) => regex_replace_all_result(pattern@, t@, rep@) == Some(x@),
            Err(e) => regex_replace_all_result(pattern@, t@, rep@) is None && e
                is RewriteRejected,
        },
        fixed_rewrite_pattern(pattern@) ==> r is Ok,
{
    match regex_replace_all(pattern, t.as_str(), rep) {
        Some(x) => Ok(x),
        None => Err(RcppError::RewriteRejected),
    }
}

/// Translates one line of RC++ into C++ within the namespace `module_name`
/// (used by the `panic!` rewrite). It always succeeds: the pattern engine
/// accepts each of the fixed rewrite patterns.
pub fn apply_rcpp_syntax(content: &str, module_name: &str) -> (r: Result<String, RcppError>)
    ensures
        r is Ok,
        match r {
            Ok(s) => rcpp_syntax_spec(content@, module_name@) == Some(s@),
            Err(e) => rcpp_syntax_spec(content@, module_name@) is None && e is RewriteRejected,
        },
{
    let (masked, lits) = mask_literals(content);
    let t1 = rewrite_step(&masked, r"\blet(\s+[a-zA-Z_][a-zA-Z0-9_]*)", "const auto$1")?;
    let t2 = rewrite_step(&t1, r"\bmut(\s+[a-zA-Z_][a-zA-Z0-9_]*)", "auto$1")?;
    let t3 = rewrite_step(
        &t2,
        r"\bfn\s+(\w+)\s*\(([^)]*)\)\s*->\s*(\w+)\s*;",
        "\u{1}${3}\u{2} ${1}(\u{3}${2}\u{4});",
    )?;
    let t4 = rewrite_step(
        &t3,
        r"\bfn\s+([a-zA-Z_][a-zA-Z0-9_:]*)\s*\(([^)]*)\)\s*->\s*([a-zA-Z_][a-zA-Z0-9_:]*)\s*(\{)",
        "\u{1}${3}\u{2} ${1}(\u{3}${2}\u{4}) ${4}",
    )?;
    let t5 = rewrite_step(&t4, r"\bfn\s+([a-zA-Z_][a-zA-Z0-9_:]*)\s*\(([^)]*)\)\s*(\{)", "auto ${1}(\u{3}${2}\u{4}) ${3}")?;
    Ok(finish_rcpp_syntax(t5.as_str(), &lits, module_name))
}

} // verus!
