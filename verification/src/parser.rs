//! The line-oriented front end: splits an `.rcx` source file into `use`
//! statements, `extern mod` declarations, the `interface { .. }` block and
//! the remaining code, with `#[..]` attributes attached to what follows them.
use vstd::prelude::*;
use crate::error::RcppError;
use crate::text::{
    lemma_first_occurrence_at, lemma_first_occurrence_none, lemma_trim_end_concat,
    lemma_trim_end_prefix, lemma_trim_start_concat, lemma_trim_start_suffix,
    char_end, chars_of, count_char, count_occurrences, ends_with, find_char, find_from,
    first_occurrence, has_prefix, has_suffix, is_space, is_space_char, last_occurrence,
    lemma_char_end_bounds, lemma_first_occurrence_found, lemma_last_occurrence_found, lines_spec,
    matches_at, occurs_at, replace_chars, replace_spec, rfind, slice_of, split_char, split_lines,
    split_spec, starts_with, string_of, strip_prefixes, strip_suffixes, trim, trim_end_matches,
    trim_end_spec, trim_spec, trim_start_matches, trim_start_spec, views,
};

verus! {

// ---------------------------------------------------------------------
// Data
// ---------------------------------------------------------------------

/// An attribute line `#[name]` or `#[name(key = "value", flag)]`.
#[derive(Debug, Clone)]
pub struct Attribute {
    pub name: String,
    pub args: Vec<(String, String)>,
}

/// The abstract value of an [`Attribute`].
#[verifier::ext_equal]
pub struct AttributeView {
    pub name: Seq<char>,
    pub args: Seq<(Seq<char>, Seq<char>)>,
}

/// The views of key/value pairs of strings.
pub open spec fn pair_views(v: Seq<(String, String)>) -> Seq<(Seq<char>, Seq<char>)> {
    v.map_values(|p: (String, String)| (p.0@, p.1@))
}

impl View for Attribute {
    type V = AttributeView;

    open spec fn view(&self) -> AttributeView {
        AttributeView { name: self.name@, args: pair_views(self.args@) }
    }
}

/// The views of a sequence of attributes.
pub open spec fn attr_views(v: Seq<Attribute>) -> Seq<AttributeView> {
    v.map_values(|a: Attribute| a@)
}

/// A source line with its position and the attributes written above it.
#[derive(Debug, Clone)]
pub struct Line {
    pub content: String,
    pub line_num: usize,
    pub file: String,
    pub attrs: Vec<Attribute>,
}

/// The abstract value of a [`Line`].
#[verifier::ext_equal]
pub struct LineView {
    pub content: Seq<char>,
    pub line_num: usize,
    pub file: Seq<char>,
    pub attrs: Seq<AttributeView>,
}

impl View for Line {
    type V = LineView;

    open spec fn view(&self) -> LineView {
        LineView {
            content: self.content@,
            line_num: self.line_num,
            file: self.file@,
            attrs: attr_views(self.attrs@),
        }
    }
}

/// The views of a sequence of lines.
pub open spec fn line_views(v: Seq<Line>) -> Seq<LineView> {
    v.map_values(|l: Line| l@)
}

/// `use path::item;`, `use path::*;` or `use path;`.
#[derive(Debug, Clone)]
pub struct UseStatement {
    pub path: String,
    pub items: Vec<String>,
    pub _line: Line,
}

/// The abstract value of a [`UseStatement`].
#[verifier::ext_equal]
pub struct UseView {
    pub path: Seq<char>,
    pub items: Seq<Seq<char>>,
    pub line: LineView,
}

/// The views of a sequence of strings.
pub open spec fn string_views(v: Seq<String>) -> Seq<Seq<char>> {
    v.map_values(|s: String| s@)
}

impl View for UseStatement {
    type V = UseView;

    open spec fn view(&self) -> UseView {
        UseView { path: self.path@, items: string_views(self.items@), line: self._line@ }
    }
}

/// The views of a sequence of `use` statements.
pub open spec fn use_views(v: Seq<UseStatement>) -> Seq<UseView> {
    v.map_values(|u: UseStatement| u@)
}

/// `extern mod name;` or `extern mod name "path";`.
#[derive(Debug, Clone)]
pub struct ExternMod {
    pub name: String,
    pub inline_path: Option<String>,
    pub _line: Line,
}

/// The abstract value of an [`ExternMod`].
#[verifier::ext_equal]
pub struct ExternView {
    pub name: Seq<char>,
    pub inline_path: Option<Seq<char>>,
    pub line: LineView,
}

/// The view of an optional string.
pub open spec fn opt_view(o: Option<String>) -> Option<Seq<char>> {
    match o {
        Some(s) => Some(s@),
        None => None,
    }
}

impl View for ExternMod {
    type V = ExternView;

    open spec fn view(&self) -> ExternView {
        ExternView { name: self.name@, inline_path: opt_view(self.inline_path), line: self._line@ }
    }
}

/// The views of a sequence of `extern mod` declarations.
pub open spec fn extern_views(v: Seq<ExternMod>) -> Seq<ExternView> {
    v.map_values(|e: ExternMod| e@)
}

/// The lines of the `interface { .. }` block of a file.
#[derive(Debug, Clone)]
pub struct InterfaceBlock {
    pub lines: Vec<Line>,
    pub _start_line: usize,
    pub file: String,
    pub attrs: Vec<Attribute>,
}

/// The abstract value of an [`InterfaceBlock`].
#[verifier::ext_equal]
pub struct InterfaceView {
    pub lines: Seq<LineView>,
    pub start_line: usize,
    pub file: Seq<char>,
    pub attrs: Seq<AttributeView>,
}

impl View for InterfaceBlock {
    type V = InterfaceView;

    open spec fn view(&self) -> InterfaceView {
        InterfaceView {
            lines: line_views(self.lines@),
            start_line: self._start_line,
            file: self.file@,
            attrs: attr_views(self.attrs@),
        }
    }
}

/// Every line of a file outside the interface block and the imports.
#[derive(Debug, Clone)]
pub struct RestCode {
    pub lines: Vec<Line>,
}

impl View for RestCode {
    type V = Seq<LineView>;

    open spec fn view(&self) -> Seq<LineView> {
        line_views(self.lines@)
    }
}

/// A copy of a string.
pub fn copy_string(s: &String) -> (r: String)
    ensures
        r@ == s@,
{
    s.clone()
}

// ---------------------------------------------------------------------
// Attributes
// ---------------------------------------------------------------------

/// The text between `#[` and `]` of an attribute line: every leading `#[`
/// and every trailing `]` removed.
pub open spec fn attr_inner(s: Seq<char>) -> Seq<char> {
    strip_suffixes(strip_prefixes(s, seq!['#', '[']), seq![']'])
}

/// `v` with every leading and trailing `c` removed (`str::trim_matches`).
pub open spec fn strip_both(v: Seq<char>, c: char) -> Seq<char> {
    strip_suffixes(strip_prefixes(v, seq![c]), seq![c])
}

/// One comma-separated argument: `key = value` (value without quotes) or a
/// bare flag, which stands for `flag = true`; an empty piece gives nothing.
pub open spec fn arg_spec(piece: Seq<char>) -> Seq<(Seq<char>, Seq<char>)> {
    let part = trim_spec(piece);
    let e = char_end(part, 0, '=');
    if e < part.len() {
        seq![
            (
                trim_spec(part.take(e)),
                strip_both(strip_both(trim_spec(part.skip(e + 1)), '"'), '\''),
            ),
        ]
    } else if part.len() > 0 {
        seq![(part, seq!['t', 'r', 'u', 'e'])]
    } else {
        seq![]
    }
}

/// The arguments given by a list of comma-separated pieces.
pub open spec fn args_spec(pieces: Seq<Seq<char>>) -> Seq<(Seq<char>, Seq<char>)>
    decreases pieces.len(),
{
    if pieces.len() == 0 {
        seq![]
    } else {
        args_spec(pieces.drop_last()) + arg_spec(pieces.last())
    }
}

/// An attribute line that can be read: where the inner text has a `(`, it is
/// not its last character and the last character is ASCII (the argument
/// text is cut out by byte positions that must fall on character boundaries).
pub open spec fn attribute_ok(s: Seq<char>) -> bool {
    let inner = attr_inner(s);
    let p = char_end(inner, 0, '(');
    p < inner.len() ==> p + 1 < inner.len() && (inner.last() as u32) < 0x80
}

/// The attribute written by the line `s` (which starts with `#[` and ends
/// with `]`): a name, then optionally comma-separated arguments between the
/// first `(` and the last character. Without a `(`, the form
/// `key = value` is the attribute `key` with the one argument
/// `name = value` (as `key(name = value)` would give), and any other text
/// is a name without arguments.
pub open spec fn parse_attribute_spec(s: Seq<char>) -> AttributeView {
    let inner = attr_inner(s);
    let p = char_end(inner, 0, '(');
    if p < inner.len() {
        AttributeView {
            name: trim_spec(inner.take(p)),
            args: args_spec(
                split_spec(trim_spec(inner.subrange(p + 1, inner.len() - 1)), ','),
            ),
        }
    } else {
        let t = trim_spec(inner);
        let e = char_end(t, 0, '=');
        if e < t.len() {
            AttributeView {
                name: trim_spec(t.take(e)),
                args: seq![("name"@, strip_both(strip_both(trim_spec(t.skip(e + 1)), '"'), '\''))],
            }
        } else {
            AttributeView { name: inner, args: seq![] }
        }
    }
}

/// Reads one argument piece.
fn parse_arg(piece: &Vec<char>, args: &mut Vec<(String, String)>)
    ensures
        pair_views(final(args)@) == pair_views(old(args)@) + arg_spec(piece@),
{
    let part = trim(piece);
    let e = find_char(&part, '=');
    proof {
        lemma_char_end_bounds(part@, 0, '=');
    }
    let ghost old_args = args@;
    if e < part.len() {
        let k = trim(&slice_of(&part, 0, e));
        let v0 = trim(&slice_of(&part, e + 1, part.len()));
        let dq = vec!['"'];
        let sq = vec!['\''];
        assert(dq@ =~= seq!['"']);
        assert(sq@ =~= seq!['\'']);
        let v1 = trim_end_matches(&trim_start_matches(&v0, &dq), &dq);
        let v2 = trim_end_matches(&trim_start_matches(&v1, &sq), &sq);
        assert(part@.take(e as int) =~= part@.subrange(0, e as int));
        assert(part@.skip(e + 1) =~= part@.subrange(e + 1, part@.len() as int));
        let ks = string_of(&k);
        let vs = string_of(&v2);
        assert(ks@ == trim_spec(part@.take(e as int)));
        assert(vs@ == strip_both(strip_both(trim_spec(part@.skip(e + 1)), '"'), '\''));
        assert(arg_spec(piece@) == seq![(ks@, vs@)]);
        args.push((ks, vs));
        assert(pair_views(args@) =~= pair_views(old_args) + arg_spec(piece@));
    } else if part.len() > 0 {
        let t = vec!['t', 'r', 'u', 'e'];
        args.push((string_of(&part), string_of(&t)));
        assert(pair_views(args@) =~= pair_views(old_args) + arg_spec(piece@));
    } else {
        assert(pair_views(args@) =~= pair_views(old_args) + arg_spec(piece@));
    }
}

/// Reads an attribute line.
pub fn parse_attribute(s: &Vec<char>) -> (a: Attribute)
    requires
        attribute_ok(s@),
    ensures
        a@ == parse_attribute_spec(s@),
{
    let open = vec!['#', '['];
    let close = vec![']'];
    assert(open@ =~= seq!['#', '[']);
    assert(close@ =~= seq![']']);
    let inner = trim_end_matches(&trim_start_matches(s, &open), &close);
    let p = find_char(&inner, '(');
    proof {
        lemma_char_end_bounds(inner@, 0, '(');
    }
    assert(inner@ == attr_inner(s@));
    if p < inner.len() {
        let name = trim(&slice_of(&inner, 0, p));
        assert(inner@.take(p as int) =~= inner@.subrange(0, p as int));
        let args_text = trim(&slice_of(&inner, p + 1, inner.len() - 1));
        let pieces = split_char(&args_text, ',');
        let mut args: Vec<(String, String)> = Vec::new();
        let mut i: usize = 0;
        while i < pieces.len()
            invariant
                i <= pieces@.len(),
                pair_views(args@) == args_spec(views(pieces@).take(i as int)),
            decreases pieces@.len() - i,
        {
            assert(views(pieces@).take(i + 1).drop_last() =~= views(pieces@).take(i as int));
            parse_arg(&pieces[i], &mut args);
            i = i + 1;
        }
        assert(views(pieces@).take(i as int) =~= views(pieces@));
        Attribute { name: string_of(&name), args }
    } else {
        let t = trim(&inner);
        let e = find_char(&t, '=');
        if e < t.len() {
            let mut kv: Vec<(String, String)> = Vec::new();
            parse_arg(&inner, &mut kv);
            assert(pair_views(kv@) =~= arg_spec(inner@));
            let ghost kview = (
                trim_spec(t@.take(e as int)),
                strip_both(strip_both(trim_spec(t@.skip(e + 1)), '"'), '\''),
            );
            assert(arg_spec(inner@) == seq![kview]);
            assert(kv@.len() == 1);
            assert(pair_views(kv@)[0] == kview);
            assert(kv@[0].0@ == kview.0 && kv@[0].1@ == kview.1);
            let key = copy_string(&kv[0].0);
            let value = copy_string(&kv[0].1);
            let nm = vec!['n', 'a', 'm', 'e'];
            let nms = string_of(&nm);
            proof {
                reveal_strlit("name");
            }
            assert(nms@ == "name"@);
            let mut args: Vec<(String, String)> = Vec::new();
            let ghost vv = value@;
            args.push((nms, value));
            assert(pair_views(args@) =~= seq![("name"@, vv)]);
            Attribute { name: key, args }
        } else {
            let args: Vec<(String, String)> = Vec::new();
            assert(pair_views(args@) =~= Seq::empty());
            Attribute { name: string_of(&inner), args }
        }
    }
}

// ---------------------------------------------------------------------
// `use` statements
// ---------------------------------------------------------------------

/// The text of a `use` line without every leading `use `, every trailing `;`
/// and surrounding white space.
pub open spec fn use_body(s: Seq<char>) -> Seq<char> {
    trim_spec(strip_suffixes(strip_prefixes(s, seq!['u', 's', 'e', ' ']), seq![';']))
}

/// The path and items of a `use` line: `a::b::*` gives `a::b` and `*`,
/// `a::b::C` gives `a::b` and `C` (split at the last `::`), and a path
/// without `::` gives itself and no items.
pub open spec fn parse_use_spec(s: Seq<char>) -> (Seq<char>, Seq<Seq<char>>) {
    let b = use_body(s);
    if has_suffix(b, seq![':', ':', '*']) {
        (strip_suffixes(b, seq![':', ':', '*']), seq![seq!['*']])
    } else {
        match last_occurrence(b, seq![':', ':'], b.len() - 2) {
            Some(k) => (b.take(k), seq![b.skip(k + 2)]),
            None => (b, seq![]),
        }
    }
}

/// A character of an identifier: an ASCII letter or digit, or `_`.
pub open spec fn ident_char(c: char) -> bool {
    ('a' <= c && c <= 'z') || ('A' <= c && c <= 'Z') || ('0' <= c && c <= '9') || c == '_'
}

/// An identifier: a non-empty run of identifier characters that does not
/// start with a digit.
pub open spec fn is_identifier(s: Seq<char>) -> bool {
    &&& s.len() > 0
    &&& !('0' <= s[0] && s[0] <= '9')
    &&& forall|i: int| 0 <= i < s.len() ==> #[trigger] ident_char(s[i])
}

/// The text of a module path such as `a::b::c`: identifier characters and
/// `:`, starting and ending with an identifier character (every path made
/// of identifiers joined by `::` is one).
pub open spec fn is_path_text(p: Seq<char>) -> bool {
    &&& p.len() > 0
    &&& ident_char(p[0])
    &&& ident_char(p.last())
    &&& forall|i: int| 0 <= i < p.len() ==> #[trigger] ident_char(p[i]) || p[i] == ':'
}

proof fn lemma_body_of(x: Seq<char>, b: Seq<char>)
    requires
        x == b + seq![';'],
        b.len() > 0,
        !is_space(b[0]),
        !is_space(b.last()),
        b.last() != ';',
        forall|i: int| 0 <= i < b.len() ==> #[trigger] b[i] != ' ',
    ensures
        use_body(seq!['u', 's', 'e', ' '] + x) == b,
{
    let kw = seq!['u', 's', 'e', ' '];
    let s = kw + x;
    assert(s.subrange(0, 4) =~= kw);
    assert(s.skip(4) =~= x);
    assert(has_prefix(s, kw));
    if x.len() >= 4 {
        assert(x.subrange(0, 4)[3] == x[3]);
        if x[3] == ' ' {
            assert(b[3] == x[3]);
        }
        assert(x.subrange(0, 4) != kw);
    }
    assert(!has_prefix(x, kw));
    assert(strip_prefixes(x, kw) == x);
    assert(strip_prefixes(s, kw) == x);
    assert(x.subrange(x.len() - 1, x.len() as int) =~= seq![';']);
    assert(x.take(x.len() - 1) =~= b);
    assert(b.subrange(b.len() - 1, b.len() as int)[0] == b.last());
    assert(!has_suffix(b, seq![';']));
    assert(strip_suffixes(b, seq![';']) == b);
    assert(strip_suffixes(x, seq![';']) == b);
    assert(trim_start_spec(b) == b);
    assert(trim_end_spec(b) == b);
}

proof fn lemma_ident_not_space(c: char)
    requires
        ident_char(c) || c == ':' || c == '*',
    ensures
        !is_space(c),
        c != ' ',
        c != ';',
{
}

proof fn lemma_last_sep(b: Seq<char>, n: int, upto: int)
    requires
        0 <= n,
        n + 2 <= b.len(),
        b[n] == ':',
        b[n + 1] == ':',
        forall|i: int| n + 2 <= i < b.len() ==> #[trigger] b[i] != ':',
        n <= upto <= b.len() - 2,
    ensures
        last_occurrence(b, seq![':', ':'], upto) == Some(n),
    decreases upto - n,
{
    if upto == n {
        assert(b.subrange(n, n + 2) =~= seq![':', ':']);
    } else {
        assert(b.subrange(upto, upto + 2)[1] == b[upto + 1]);
        assert(!occurs_at(b, seq![':', ':'], upto));
        lemma_last_sep(b, n, upto - 1);
    }
}

proof fn lemma_no_sep(b: Seq<char>, upto: int)
    requires
        forall|i: int| !occurs_at(b, seq![':', ':'], i),
    ensures
        last_occurrence(b, seq![':', ':'], upto) is None,
    decreases upto + 1,
{
    if upto >= 0 {
        assert(!occurs_at(b, seq![':', ':'], upto));
        lemma_no_sep(b, upto - 1);
    }
}

/// The `use` forms read back as written: for a module path `p` and an
/// identifier `i`, `use p::i;` gives the path `p` and the item `i`,
/// `use p::*;` gives `p` and `*`, and, where `p` holds no `::`, `use p;`
/// gives `p` and no items.
pub proof fn law_use_statement_forms(p: Seq<char>, i: Seq<char>)
    requires
        is_path_text(p),
        is_identifier(i),
    ensures
        parse_use_spec(seq!['u', 's', 'e', ' '] + p + seq![':', ':'] + i + seq![';']) == (
            p,
            seq![i],
        ),
        parse_use_spec(seq!['u', 's', 'e', ' '] + p + seq![':', ':', '*', ';']) == (
            p,
            seq![seq!['*']],
        ),
        (forall|k: int| !occurs_at(p, seq![':', ':'], k)) ==> parse_use_spec(
            seq!['u', 's', 'e', ' '] + p + seq![';'],
        ) == (p, Seq::<Seq<char>>::empty()),
{
    let kw = seq!['u', 's', 'e', ' '];
    let sep = seq![':', ':'];
    let glob = seq![':', ':', '*'];
    lemma_ident_not_space(p[0]);
    lemma_ident_not_space(p.last());
    assert(ident_char(i[i.len() - 1]));
    lemma_ident_not_space(i.last());
    assert(i.last() != '*');
    assert forall|k: int| 0 <= k < p.len() implies #[trigger] p[k] != ' ' && p[k] != '*' by {
        assert(ident_char(p[k]) || p[k] == ':');
        lemma_ident_not_space(p[k]);
    }
    assert forall|k: int| 0 <= k < i.len() implies #[trigger] i[k] != ' ' && i[k] != ':' by {
        lemma_ident_not_space(i[k]);
    }
    // `use p::i;`
    let b1 = p + sep + i;
    assert(kw + p + sep + i + seq![';'] =~= kw + (b1 + seq![';']));
    assert(b1[0] == p[0]);
    assert(b1.last() == i.last());
    assert forall|k: int| 0 <= k < b1.len() implies #[trigger] b1[k] != ' ' by {
        if k < p.len() {
            assert(b1[k] == p[k]);
        } else if k >= p.len() + 2 {
            assert(b1[k] == i[k - p.len() - 2]);
        }
    }
    lemma_body_of(b1 + seq![';'], b1);
    assert(b1.subrange(b1.len() - 3, b1.len() as int)[2] == b1.last());
    assert(!has_suffix(b1, glob));
    assert forall|k: int| p.len() + 2 <= k < b1.len() implies #[trigger] b1[k] != ':' by {
        assert(b1[k] == i[k - p.len() - 2]);
    }
    lemma_last_sep(b1, p.len() as int, b1.len() - 2);
    assert(b1.take(p.len() as int) =~= p);
    assert(b1.skip(p.len() as int + 2) =~= i);
    // `use p::*;`
    let b2 = p + glob;
    assert(kw + p + seq![':', ':', '*', ';'] =~= kw + (b2 + seq![';']));
    assert(b2[0] == p[0]);
    assert(b2.last() == '*');
    lemma_ident_not_space('*');
    assert forall|k: int| 0 <= k < b2.len() implies #[trigger] b2[k] != ' ' by {
        if k < p.len() {
            assert(b2[k] == p[k]);
        }
    }
    lemma_body_of(b2 + seq![';'], b2);
    assert(b2.subrange(b2.len() - 3, b2.len() as int) =~= glob);
    assert(b2.take(b2.len() - 3) =~= p);
    if p.len() >= 3 {
        assert(p.subrange(p.len() - 3, p.len() as int)[2] == p.last());
    }
    assert(!has_suffix(p, glob));
    assert(strip_suffixes(p, glob) == p);
    // `use p;`
    if forall|k: int| !occurs_at(p, sep, k) {
        assert(kw + p + seq![';'] =~= kw + (p + seq![';']));
        lemma_body_of(p + seq![';'], p);
        lemma_no_sep(p, p.len() - 2);
    }
}

/// Reads a `use` line; it always succeeds.
pub fn parse_use_statement(s: &Vec<char>) -> (r: Option<(String, Vec<String>)>)
    ensures
        r matches Some(res) && res.0@ == parse_use_spec(s@).0 && string_views(res.1@)
            == parse_use_spec(s@).1,
{
    let kw = vec!['u', 's', 'e', ' '];
    let semi = vec![';'];
    assert(kw@ =~= seq!['u', 's', 'e', ' ']);
    assert(semi@ =~= seq![';']);
    let b = trim(&trim_end_matches(&trim_start_matches(s, &kw), &semi));
    let glob = vec![':', ':', '*'];
    let sep = vec![':', ':'];
    assert(glob@ =~= seq![':', ':', '*']);
    assert(sep@ =~= seq![':', ':']);
    let bl = b.len();
    if ends_with(&b, &glob) {
        let path = trim_end_matches(&b, &glob);
        let star = vec!['*'];
        let mut items: Vec<String> = Vec::new();
        let st = string_of(&star);
        assert(st@ == seq!['*']);
        items.push(st);
        assert(string_views(items@) =~= seq![seq!['*']]);
        Some((string_of(&path), items))
    } else {
        match rfind(&b, &sep) {
            Some(k) => {
                proof {
                    lemma_last_occurrence_found(b@, sep@, b@.len() - 2);
                }
                assert(k + 2 <= b@.len());
                let path = slice_of(&b, 0, k);
                let item = slice_of(&b, k + 2, b.len());
                assert(path@ =~= b@.take(k as int));
                assert(item@ =~= b@.skip(k + 2));
                let mut items: Vec<String> = Vec::new();
                items.push(string_of(&item));
                assert(string_views(items@) =~= seq![item@]);
                Some((string_of(&path), items))
            },
            None => {
                let items: Vec<String> = Vec::new();
                assert(string_views(items@) =~= seq![]);
                Some((string_of(&b), items))
            },
        }
    }
}


// ---------------------------------------------------------------------
// `extern mod` declarations
// ---------------------------------------------------------------------

/// `[a-zA-Z_]`
pub open spec fn is_ident_start(c: char) -> bool {
    ('a' <= c && c <= 'z') || ('A' <= c && c <= 'Z') || c == '_'
}

/// `[a-zA-Z0-9_]`
pub open spec fn is_ident_char(c: char) -> bool {
    is_ident_start(c) || ('0' <= c && c <= '9')
}

/// The end of the run of white space that starts at `i`.
pub open spec fn space_end(s: Seq<char>, i: int) -> int
    decreases s.len() - i,
{
    if i < 0 || i >= s.len() || !is_space(s[i]) {
        i
    } else {
        space_end(s, i + 1)
    }
}

/// The end of the run of identifier characters that starts at `i`.
pub open spec fn ident_end(s: Seq<char>, i: int) -> int
    decreases s.len() - i,
{
    if i < 0 || i >= s.len() || !is_ident_char(s[i]) {
        i
    } else {
        ident_end(s, i + 1)
    }
}

/// What follows the module name, which ends at `e`: either
/// `\s+"path"\s*;` (giving the path) or `\s*;` (giving no path); the first
/// is preferred.
pub open spec fn extern_tail(s: Seq<char>, e: int) -> Option<Option<Seq<char>>> {
    let f = space_end(s, e);
    let g = char_end(s, f + 1, '"');
    let k = space_end(s, g + 1);
    if f > e && f < s.len() && s[f] == '"' && f + 1 < g < s.len() && k < s.len() && s[k] == ';' {
        Some(Some(s.subrange(f + 1, g)))
    } else if f < s.len() && s[f] == ';' {
        Some(None)
    } else {
        None
    }
}

/// The declaration `extern\s+mod\s+NAME(\s+"PATH")?\s*;` starting at `i`,
/// giving the name and the optional path.
pub open spec fn extern_at(s: Seq<char>, i: int) -> Option<(Seq<char>, Option<Seq<char>>)> {
    let a = i + 6;
    let b = space_end(s, a);
    let c = b + 3;
    let d = space_end(s, c);
    let e = ident_end(s, d + 1);
    if occurs_at(s, seq!['e', 'x', 't', 'e', 'r', 'n'], i) && b > a && occurs_at(
        s,
        seq!['m', 'o', 'd'],
        b,
    ) && d > c && d < s.len() && is_ident_start(s[d]) {
        match extern_tail(s, e) {
            Some(p) => Some((s.subrange(d, e), p)),
            None => None,
        }
    } else {
        None
    }
}

/// The leftmost declaration in `s` that starts at or after `i`.
pub open spec fn extern_search(s: Seq<char>, i: int) -> Option<(Seq<char>, Option<Seq<char>>)>
    decreases s.len() + 1 - i,
{
    if i < 0 || i > s.len() {
        None
    } else {
        match extern_at(s, i) {
            Some(r) => Some(r),
            None => extern_search(s, i + 1),
        }
    }
}

proof fn lemma_space_end(s: Seq<char>, i: int)
    requires
        0 <= i <= s.len(),
    ensures
        i <= space_end(s, i) <= s.len(),
    decreases s.len() - i,
{
    if i < s.len() && is_space(s[i]) {
        lemma_space_end(s, i + 1);
    }
}

proof fn lemma_ident_end(s: Seq<char>, i: int)
    requires
        0 <= i <= s.len(),
    ensures
        i <= ident_end(s, i) <= s.len(),
    decreases s.len() - i,
{
    if i < s.len() && is_ident_char(s[i]) {
        lemma_ident_end(s, i + 1);
    }
}

/// The end of the run of white space starting at `i`.
fn skip_spaces(s: &Vec<char>, i: usize) -> (r: usize)
    requires
        i <= s@.len(),
    ensures
        r == space_end(s@, i as int),
        i <= r <= s@.len(),
{
    let mut j = i;
    proof {
        lemma_space_end(s@, i as int);
    }
    while j < s.len() && is_space_char(s[j])
        invariant
            i <= j <= s@.len(),
            space_end(s@, i as int) == space_end(s@, j as int),
        decreases s@.len() - j,
    {
        j = j + 1;
    }
    j
}

/// The end of the run of identifier characters starting at `i`.
fn skip_ident(s: &Vec<char>, i: usize) -> (r: usize)
    requires
        i <= s@.len(),
    ensures
        r == ident_end(s@, i as int),
        i <= r <= s@.len(),
{
    let mut j = i;
    while j < s.len() && ((s[j] >= 'a' && s[j] <= 'z') || (s[j] >= 'A' && s[j] <= 'Z') || s[j]
        == '_' || (s[j] >= '0' && s[j] <= '9'))
        invariant
            i <= j <= s@.len(),
            ident_end(s@, i as int) == ident_end(s@, j as int),
        decreases s@.len() - j,
    {
        j = j + 1;
    }
    j
}

/// The tail after a module name ending at `e`.
fn match_extern_tail(s: &Vec<char>, e: usize) -> (r: Option<Option<Vec<char>>>)
    requires
        e <= s@.len(),
    ensures
        match r {
            Some(Some(p)) => extern_tail(s@, e as int) == Some(Some(p@)),
            Some(None) => extern_tail(s@, e as int) == Some(None::<Seq<char>>),
            None => extern_tail(s@, e as int) is None,
        },
{
    let f = skip_spaces(s, e);
    if f > e && f < s.len() && s[f] == '"' {
        let mut g = f + 1;
        while g < s.len() && s[g] != '"'
            invariant
                f + 1 <= g <= s@.len(),
                char_end(s@, f + 1, '"') == char_end(s@, g as int, '"'),
            decreases s@.len() - g,
        {
            g = g + 1;
        }
        if g > f + 1 && g < s.len() {
            let k = skip_spaces(s, g + 1);
            if k < s.len() && s[k] == ';' {
                return Some(Some(slice_of(s, f + 1, g)));
            }
        }
    }
    if f < s.len() && s[f] == ';' {
        Some(None)
    } else {
        None
    }
}

/// The declaration starting at `i`, if one does.
fn match_extern_at(s: &Vec<char>, i: usize) -> (r: Option<(Vec<char>, Option<Vec<char>>)>)
    requires
        i <= s@.len(),
    ensures
        match r {
            Some((n, Some(p))) => extern_at(s@, i as int) == Some((n@, Some(p@))),
            Some((n, None)) => extern_at(s@, i as int) == Some((n@, None::<Seq<char>>)),
            None => extern_at(s@, i as int) is None,
        },
{
    let kw = vec!['e', 'x', 't', 'e', 'r', 'n'];
    let md = vec!['m', 'o', 'd'];
    assert(kw@ =~= seq!['e', 'x', 't', 'e', 'r', 'n']);
    assert(md@ =~= seq!['m', 'o', 'd']);
    let n = s.len();
    if !matches_at(s, &kw, i) {
        return None;
    }
    let a = i + 6;
    let b = skip_spaces(s, a);
    if b == a || !matches_at(s, &md, b) {
        return None;
    }
    let c = b + 3;
    let d = skip_spaces(s, c);
    if d == c || d >= s.len() || !((s[d] >= 'a' && s[d] <= 'z') || (s[d] >= 'A' && s[d] <= 'Z')
        || s[d] == '_') {
        return None;
    }
    let e = skip_ident(s, d + 1);
    match match_extern_tail(s, e) {
        Some(p) => Some((slice_of(s, d, e), p)),
        None => None,
    }
}

/// The leftmost `extern mod` declaration in `s`, as the pattern
/// `extern\s+mod\s+([a-zA-Z_][a-zA-Z0-9_]*)(?:\s+"([^"]+)")?\s*;` finds it.
pub fn match_extern(s: &Vec<char>) -> (r: Option<(Vec<char>, Option<Vec<char>>)>)
    ensures
        match r {
            Some((n, Some(p))) => extern_search(s@, 0) == Some((n@, Some(p@))),
            Some((n, None)) => extern_search(s@, 0) == Some((n@, None::<Seq<char>>)),
            None => extern_search(s@, 0) is None,
        },
{
    let mut i: usize = 0;
    while i < s.len()
        invariant
            i <= s@.len(),
            s@.len() == s.len(),
            extern_search(s@, 0) == extern_search(s@, i as int),
        decreases s@.len() + 1 - i,
    {
        match match_extern_at(s, i) {
            Some(r) => {
                return Some(r);
            },
            None => {},
        }
        i = i + 1;
    }
    assert(extern_at(s@, i as int) is None);
    assert(extern_search(s@, i + 1) is None);
    None
}


// ---------------------------------------------------------------------
// Files
// ---------------------------------------------------------------------

/// What the front end has gathered after a number of lines.
#[verifier::ext_equal]
pub struct ParseState {
    pub uses: Seq<UseView>,
    pub externs: Seq<ExternView>,
    pub iface: Seq<LineView>,
    pub rest: Seq<LineView>,
    pub in_iface: bool,
    pub depth: usize,
    pub iface_start: usize,
    pub iface_attrs: Seq<AttributeView>,
    pub pending: Seq<AttributeView>,
}

/// The state before the first line.
pub open spec fn initial_state() -> ParseState {
    ParseState {
        uses: seq![],
        externs: seq![],
        iface: seq![],
        rest: seq![],
        in_iface: false,
        depth: 0,
        iface_start: 0,
        iface_attrs: seq![],
        pending: seq![],
    }
}

/// The part of a line that the front end reads: trimmed, and cut (and
/// trimmed again) before the first `//`.
pub open spec fn code_part(line: Seq<char>) -> Seq<char> {
    let content = trim_spec(line);
    match first_occurrence(content, seq!['/', '/'], 0) {
        Some(k) => trim_spec(content.take(k)),
        None => content,
    }
}

/// A trailing `//` comment does not change how a line is read: a line `l`
/// without `//` reads as its trimmed text, and for any comment text `c`,
/// the line `l // c` reads as `l` does (so `use p::*; // c` is the same `use` as `use p::*;`, and
/// `#[no_mangle] // c` is the same attribute line).
pub proof fn law_trailing_comment_ignored(l: Seq<char>, c: Seq<char>)
    requires
        forall|i: int| !occurs_at(l, "//"@, i),
    ensures
        code_part(l) == trim_spec(l),
        code_part(l + " // "@ + c) == code_part(l),
{
    reveal_strlit("//");
    reveal_strlit(" // ");
    let sl = seq!['/', '/'];
    assert("//"@ =~= sl);
    let w = " // "@ + c;
    let s = l + w;
    assert(l + " // "@ + c =~= s);
    let x = trim_start_spec(l);
    lemma_trim_start_suffix(l);
    lemma_trim_start_concat(l, w);
    // `l` itself: no `//`, so it reads as its trimmed text.
    let tl = trim_spec(l);
    lemma_trim_end_prefix(x);
    assert forall|i: int| !occurs_at(tl, sl, i) by {
        if occurs_at(tl, sl, i) {
            let d = l.len() - x.len();
            assert(tl.subrange(i, i + 2) =~= l.subrange(d + i, d + i + 2));
            assert(occurs_at(l, "//"@, d + i));
        }
    }
    lemma_first_occurrence_none(tl, sl, 0);
    assert(code_part(l) == tl);
    if x.len() > 0 {
        // `s` trims at the start to `x + w`.
        let a = x + seq![' ', '/', '/'];
        let b = seq![' '] + c;
        assert(w =~= seq![' ', '/', '/'] + b);
        assert(x + w =~= a + b);
        lemma_trim_end_concat(a, b);
        assert(a.last() == '/');
        assert(trim_end_spec(a) == a);
        let content = trim_end_spec(a + b);
        assert(trim_spec(s) == content);
        let k = x.len() as int + 1;
        assert(content.len() >= a.len());
        assert forall|i: int| 0 <= i < a.len() implies content[i] == a[i] by {
            if trim_end_spec(b).len() > 0 {
                assert(content == a + trim_end_spec(b));
            }
        }
        assert(content.subrange(k, k + 2) =~= sl);
        assert forall|i: int| 0 <= i < k implies !occurs_at(content, sl, i) by {
            if occurs_at(content, sl, i) {
                assert(content.subrange(i, i + 2)[0] == content[i]);
                assert(content.subrange(i, i + 2)[1] == content[i + 1]);
                if i + 2 <= x.len() {
                    let d = l.len() - x.len();
                    assert(x[i] == l[d + i] && x[i + 1] == l[d + i + 1]);
                    assert(l.subrange(d + i, d + i + 2) =~= "//"@);
                    assert(occurs_at(l, "//"@, d + i));
                } else {
                    assert(content[x.len() as int] == ' ');
                }
            }
        }
        lemma_first_occurrence_at(content, sl, 0, k);
        let pre = content.take(k);
        assert(pre =~= x + seq![' ']);
        lemma_trim_start_concat(x, seq![' ']);
        assert(trim_start_spec(pre) == pre);
        assert(pre.drop_last() =~= x);
        assert(trim_end_spec(pre) == trim_end_spec(x));
        assert(code_part(s) == trim_spec(pre));
    } else {
        // `l` is all white space: the comment marker starts the text read.
        assert(trim_start_spec(s) == trim_start_spec(w));
        let b = seq!['/', '/', ' '] + c;
        assert(w =~= seq![' '] + b);
        assert(w.drop_first() =~= b);
        assert(trim_start_spec(w) == trim_start_spec(b));
        assert(trim_start_spec(b) == b);
        lemma_trim_end_concat(seq!['/', '/'], seq![' '] + c);
        assert(b =~= seq!['/', '/'] + (seq![' '] + c));
        let content = trim_end_spec(b);
        assert(trim_end_spec(seq!['/', '/']) == seq!['/', '/']);
        assert(content.len() >= 2 && content[0] == '/' && content[1] == '/') by {
            if trim_end_spec(seq![' '] + c).len() > 0 {
                assert(content == seq!['/', '/'] + trim_end_spec(seq![' '] + c));
            }
        }
        assert(content.subrange(0, 2) =~= sl);
        lemma_first_occurrence_at(content, sl, 0, 0);
        assert(content.take(0) =~= Seq::<char>::empty());
        assert(trim_spec(Seq::<char>::empty()) == Seq::<char>::empty());
        assert(tl == trim_end_spec(x));
        assert(x =~= Seq::<char>::empty());
    }
}

/// `s` with every occurrence of `p` removed.
pub open spec fn remove_all(s: Seq<char>, p: Seq<char>) -> Seq<char> {
    replace_spec(s, p, seq![])
}

/// `v` with `l` appended when `l` has content.
pub open spec fn push_nonempty(v: Seq<LineView>, l: LineView) -> Seq<LineView> {
    if l.content.len() > 0 {
        v.push(l)
    } else {
        v
    }
}

/// The effect of one line (its text, its 1-based number and the file name)
/// on the state; `None` where reading it cannot go on (an attribute line
/// that cannot be read, or a brace count that leaves the range of `usize`).
pub open spec fn step_spec(st: ParseState, line: Seq<char>, num: usize, file: Seq<char>) -> Option<
    ParseState,
> {
    let c = code_part(line);
    let lp = LineView { content: line, line_num: num, file: file, attrs: st.pending };
    let open = count_char(c, '{');
    let close = count_char(c, '}');
    if has_prefix(c, seq!['#', '[']) && has_suffix(c, seq![']']) {
        if attribute_ok(c) {
            Some(ParseState { pending: st.pending.push(parse_attribute_spec(c)), ..st })
        } else {
            None
        }
    } else if !st.in_iface && (c.len() == 0 || has_prefix(c, seq!['/', '/']) || has_prefix(
        c,
        seq!['/', '*'],
    )) {
        Some(ParseState { rest: st.rest.push(lp), pending: seq![], ..st })
    } else if !st.in_iface && has_prefix(c, seq!['u', 's', 'e', ' ']) {
        let u = UseView { path: parse_use_spec(c).0, items: parse_use_spec(c).1, line: lp };
        Some(ParseState { uses: st.uses.push(u), pending: seq![], ..st })
    } else if !st.in_iface && has_prefix(
        c,
        seq!['e', 'x', 't', 'e', 'r', 'n', ' ', 'm', 'o', 'd', ' '],
    ) && extern_search(c, 0) is Some {
        let m = extern_search(c, 0).unwrap();
        let e = ExternView { name: m.0, inline_path: m.1, line: lp };
        Some(ParseState { externs: st.externs.push(e), pending: seq![], ..st })
    } else if !st.in_iface && has_prefix(
        c,
        seq!['i', 'n', 't', 'e', 'r', 'f', 'a', 'c', 'e'],
    ) {
        let depth: int = if open >= close {
            open - close
        } else {
            0
        };
        let no_kw = remove_all(c, seq!['i', 'n', 't', 'e', 'r', 'f', 'a', 'c', 'e']);
        if depth == 0 {
            let inner = trim_spec(remove_all(remove_all(no_kw, seq!['{']), seq!['}']));
            let l = LineView { content: inner, line_num: num, file: file, attrs: seq![] };
            Some(
                ParseState {
                    iface: push_nonempty(st.iface, l),
                    in_iface: false,
                    depth: 0,
                    iface_start: num,
                    iface_attrs: st.pending,
                    pending: seq![],
                    ..st
                },
            )
        } else {
            let inner = trim_spec(remove_all(no_kw, seq!['{']));
            let l = LineView { content: inner, line_num: num, file: file, attrs: seq![] };
            Some(
                ParseState {
                    iface: push_nonempty(st.iface, l),
                    in_iface: true,
                    depth: depth as usize,
                    iface_start: num,
                    iface_attrs: st.pending,
                    pending: seq![],
                    ..st
                },
            )
        }
    } else if st.in_iface {
        if st.depth + open > usize::MAX || st.depth + open < close {
            None
        } else if st.depth + open - close == 0 {
            let inner = trim_spec(remove_all(c, seq!['}']));
            let l = LineView { content: inner, line_num: num, file: file, attrs: st.pending };
            Some(
                ParseState {
                    iface: push_nonempty(st.iface, l),
                    in_iface: false,
                    depth: 0,
                    pending: seq![],
                    ..st
                },
            )
        } else {
            Some(
                ParseState {
                    iface: st.iface.push(lp),
                    depth: (st.depth + open - close) as usize,
                    pending: seq![],
                    ..st
                },
            )
        }
    } else {
        Some(ParseState { rest: st.rest.push(lp), pending: seq![], ..st })
    }
}

/// The state after the first `k` of `lines`.
pub open spec fn scan_spec(lines: Seq<Seq<char>>, file: Seq<char>, k: int) -> Option<ParseState>
    decreases k,
{
    if k <= 0 {
        Some(initial_state())
    } else {
        match scan_spec(lines, file, k - 1) {
            Some(st) => step_spec(st, lines[k - 1], k as usize, file),
            None => None,
        }
    }
}

/// The state after all lines of `code`.
pub open spec fn scan_file(code: Seq<char>, file: Seq<char>) -> Option<ParseState> {
    scan_spec(lines_spec(code), file, lines_spec(code).len() as int)
}

/// Whether the front end can read `code` to the end.
pub open spec fn parse_file_ok(code: Seq<char>, file: Seq<char>) -> bool {
    scan_file(code, file) is Some
}

/// The interface block of a final state, if it has lines.
pub open spec fn interface_of(st: ParseState, file: Seq<char>) -> Option<InterfaceView> {
    if st.iface.len() == 0 {
        None
    } else {
        Some(
            InterfaceView {
                lines: st.iface,
                start_line: st.iface_start,
                file: file,
                attrs: st.iface_attrs,
            },
        )
    }
}

proof fn lemma_scan_prefix(lines: Seq<Seq<char>>, file: Seq<char>, j: int, k: int)
    requires
        0 <= j <= k,
        scan_spec(lines, file, k) is Some,
    ensures
        scan_spec(lines, file, j) is Some,
    decreases k - j,
{
    if j < k {
        lemma_scan_prefix(lines, file, j + 1, k);
    }
}

/// The stored lines of a state are source lines: each holds the text of
/// the line its number names, comes from `file`, and the numbers increase.
pub open spec fn rest_faithful(rest: Seq<LineView>, lines: Seq<Seq<char>>, file: Seq<char>, k: int) -> bool {
    &&& forall|i: int|
        #![trigger rest[i]]
        0 <= i < rest.len() ==> {
            &&& 1 <= rest[i].line_num <= k
            &&& rest[i].content == lines[rest[i].line_num - 1]
            &&& rest[i].file == file
        }
    &&& forall|i: int, j: int| 0 <= i < j < rest.len() ==> rest[i].line_num < rest[j].line_num
}

/// The lines of a sequence of `use` statements.
pub open spec fn use_lines(u: Seq<UseView>) -> Seq<LineView> {
    u.map_values(|x: UseView| x.line)
}

/// The lines of a sequence of `extern mod` declarations.
pub open spec fn extern_lines(e: Seq<ExternView>) -> Seq<LineView> {
    e.map_values(|x: ExternView| x.line)
}

/// Lines numbered within the first `k` lines of `file`, in increasing order.
pub open spec fn numbered_lines(v: Seq<LineView>, file: Seq<char>, k: int) -> bool {
    &&& forall|i: int|
        #![trigger v[i]]
        0 <= i < v.len() ==> 1 <= v[i].line_num <= k && v[i].file == file
    &&& forall|i: int, j: int| 0 <= i < j < v.len() ==> v[i].line_num < v[j].line_num
}

/// No line number occurs in both `a` and `b`.
pub open spec fn apart(a: Seq<LineView>, b: Seq<LineView>) -> bool {
    forall|i: int, j: int|
        0 <= i < a.len() && 0 <= j < b.len() ==> #[trigger] a[i].line_num != #[trigger] b[j].line_num
}

/// What holds of the state after the first `k` lines: the stored code lines,
/// `use` lines and `extern mod` lines are source lines (see
/// `rest_faithful`), the interface lines are numbered lines of the file,
/// and no line number is stored in two of these groups.
pub open spec fn state_faithful(st: ParseState, lines: Seq<Seq<char>>, file: Seq<char>, k: int) -> bool {
    &&& rest_faithful(st.rest, lines, file, k)
    &&& rest_faithful(use_lines(st.uses), lines, file, k)
    &&& rest_faithful(extern_lines(st.externs), lines, file, k)
    &&& numbered_lines(st.iface, file, k)
    &&& apart(st.rest, use_lines(st.uses))
    &&& apart(st.rest, extern_lines(st.externs))
    &&& apart(st.rest, st.iface)
    &&& apart(use_lines(st.uses), extern_lines(st.externs))
    &&& apart(use_lines(st.uses), st.iface)
    &&& apart(extern_lines(st.externs), st.iface)
}

/// `v2` is `v`, or `v` with one more line numbered `k` of `file`.
pub open spec fn grows_by(v: Seq<LineView>, v2: Seq<LineView>, k: int, file: Seq<char>) -> bool {
    v2 == v || (v2.len() > 0 && v2 == v.push(v2.last()) && v2.last().line_num == k
        && v2.last().file == file)
}

proof fn lemma_numbered_grow(v: Seq<LineView>, v2: Seq<LineView>, file: Seq<char>, k: int)
    requires
        1 <= k,
        numbered_lines(v, file, k - 1),
        grows_by(v, v2, k, file),
    ensures
        numbered_lines(v2, file, k),
{
    if v2 != v {
        assert forall|i: int| 0 <= i < v2.len() implies 1 <= #[trigger] v2[i].line_num <= k
            && v2[i].file == file by {
            if i < v.len() {
                assert(v2[i] == v[i]);
            }
        }
        assert forall|i: int, j: int| 0 <= i < j < v2.len() implies v2[i].line_num
            < v2[j].line_num by {
            assert(v2[i] == v[i]);
            if j < v.len() {
                assert(v2[j] == v[j]);
            }
        }
    }
}

proof fn lemma_source_grow(
    v: Seq<LineView>,
    v2: Seq<LineView>,
    lines: Seq<Seq<char>>,
    file: Seq<char>,
    k: int,
)
    requires
        1 <= k,
        rest_faithful(v, lines, file, k - 1),
        grows_by(v, v2, k, file),
        v2 != v ==> v2.last().content == lines[k - 1],
    ensures
        rest_faithful(v2, lines, file, k),
{
    if v2 != v {
        assert forall|i: int| 0 <= i < v2.len() implies {
            &&& 1 <= #[trigger] v2[i].line_num <= k
            &&& v2[i].content == lines[v2[i].line_num - 1]
            &&& v2[i].file == file
        } by {
            if i < v.len() {
                assert(v2[i] == v[i]);
            }
        }
        assert forall|i: int, j: int| 0 <= i < j < v2.len() implies v2[i].line_num
            < v2[j].line_num by {
            assert(v2[i] == v[i]);
            if j < v.len() {
                assert(v2[j] == v[j]);
            }
        }
    }
}

proof fn lemma_apart_grow(
    a: Seq<LineView>,
    a2: Seq<LineView>,
    b: Seq<LineView>,
    b2: Seq<LineView>,
    file: Seq<char>,
    k: int,
)
    requires
        apart(a, b),
        forall|i: int| 0 <= i < a.len() ==> #[trigger] a[i].line_num < k,
        forall|i: int| 0 <= i < b.len() ==> #[trigger] b[i].line_num < k,
        grows_by(a, a2, k, file),
        grows_by(b, b2, k, file),
        a2 == a || b2 == b,
    ensures
        apart(a2, b2),
{
    assert forall|i: int, j: int| 0 <= i < a2.len() && 0 <= j < b2.len() implies #[trigger] a2[
        i].line_num != #[trigger] b2[j].line_num by {
        if a2 == a {
            assert(a2[i] == a[i]);
            if j < b.len() {
                assert(b2[j] == b[j]);
            }
        } else {
            assert(b2[j] == b[j]);
            if i < a.len() {
                assert(a2[i] == a[i]);
            }
        }
    }
}

proof fn lemma_step_grows(st: ParseState, line: Seq<char>, k: int, file: Seq<char>)
    requires
        1 <= k <= usize::MAX,
        step_spec(st, line, k as usize, file) is Some,
    ensures
        ({
            let st2 = step_spec(st, line, k as usize, file).unwrap();
            &&& grows_by(st.rest, st2.rest, k, file)
            &&& st2.rest != st.rest ==> st2.rest.last().content == line
            &&& grows_by(use_lines(st.uses), use_lines(st2.uses), k, file)
            &&& use_lines(st2.uses) != use_lines(st.uses) ==> use_lines(st2.uses).last().content
                == line
            &&& grows_by(extern_lines(st.externs), extern_lines(st2.externs), k, file)
            &&& extern_lines(st2.externs) != extern_lines(st.externs) ==> extern_lines(
                st2.externs,
            ).last().content == line
            &&& grows_by(st.iface, st2.iface, k, file)
            &&& (st2.rest == st.rest || (st2.uses == st.uses && st2.externs == st.externs
                && st2.iface == st.iface))
            &&& (st2.uses == st.uses || (st2.externs == st.externs && st2.iface == st.iface))
            &&& (st2.externs == st.externs || st2.iface == st.iface)
        }),
{
    let st2 = step_spec(st, line, k as usize, file).unwrap();
    let lp = LineView { content: line, line_num: k as usize, file: file, attrs: st.pending };
    if st2.uses != st.uses {
        assert(st2.uses.len() > 0 && st2.uses == st.uses.push(st2.uses.last()));
        assert(st2.uses.last().line == lp);
        assert(use_lines(st2.uses) =~= use_lines(st.uses).push(lp));
    } else {
        assert(use_lines(st2.uses) == use_lines(st.uses));
    }
    if st2.externs != st.externs {
        assert(st2.externs.len() > 0 && st2.externs == st.externs.push(st2.externs.last()));
        assert(st2.externs.last().line == lp);
        assert(extern_lines(st2.externs) =~= extern_lines(st.externs).push(lp));
    } else {
        assert(extern_lines(st2.externs) == extern_lines(st.externs));
    }
}

proof fn lemma_bound_lt(v: Seq<LineView>, file: Seq<char>, k: int)
    requires
        numbered_lines(v, file, k - 1),
    ensures
        forall|i: int| 0 <= i < v.len() ==> #[trigger] v[i].line_num < k,
{
    assert forall|i: int| 0 <= i < v.len() implies #[trigger] v[i].line_num < k by {
        assert(1 <= v[i].line_num <= k - 1);
    }
}

proof fn lemma_scan_faithful(lines: Seq<Seq<char>>, file: Seq<char>, k: int)
    requires
        0 <= k <= lines.len(),
        lines.len() <= usize::MAX,
        scan_spec(lines, file, k) is Some,
    ensures
        state_faithful(scan_spec(lines, file, k).unwrap(), lines, file, k),
    decreases k,
{
    if k == 0 {
        assert(use_lines(seq![]) =~= seq![]);
        assert(extern_lines(seq![]) =~= seq![]);
    } else {
        lemma_scan_prefix(lines, file, k - 1, k);
        lemma_scan_faithful(lines, file, k - 1);
        let st = scan_spec(lines, file, k - 1).unwrap();
        let st2 = scan_spec(lines, file, k).unwrap();
        assert(st2 == step_spec(st, lines[k - 1], k as usize, file).unwrap());
        lemma_step_grows(st, lines[k - 1], k, file);
        let r = st.rest;
        let u = use_lines(st.uses);
        let e = extern_lines(st.externs);
        let f = st.iface;
        let r2 = st2.rest;
        let u2 = use_lines(st2.uses);
        let e2 = extern_lines(st2.externs);
        let f2 = st2.iface;
        assert(st2.uses == st.uses ==> u2 == u);
        assert(st2.externs == st.externs ==> e2 == e);
        lemma_source_grow(r, r2, lines, file, k);
        lemma_source_grow(u, u2, lines, file, k);
        lemma_source_grow(e, e2, lines, file, k);
        lemma_numbered_grow(f, f2, file, k);
        assert(numbered_lines(r, file, k - 1));
        assert(numbered_lines(u, file, k - 1));
        assert(numbered_lines(e, file, k - 1));
        lemma_bound_lt(r, file, k);
        lemma_bound_lt(u, file, k);
        lemma_bound_lt(e, file, k);
        lemma_bound_lt(f, file, k);
        lemma_apart_grow(r, r2, u, u2, file, k);
        lemma_apart_grow(r, r2, e, e2, file, k);
        lemma_apart_grow(r, r2, f, f2, file, k);
        lemma_apart_grow(u, u2, e, e2, file, k);
        lemma_apart_grow(u, u2, f, f2, file, k);
        lemma_apart_grow(e, e2, f, f2, file, k);
    }
}

/// Every line that the front end stores is a line of the file, and each
/// line of the file is stored at most once: the code lines outside the
/// interface block, and the lines of the `use` statements and `extern mod`
/// declarations, hold the text of the line that their number names and
/// name the file; within each group the numbers increase; the interface
/// lines are numbered lines of the file in increasing order; no number
/// occurs in two groups; and an interface block, where there is one, has
/// lines.
pub proof fn law_parsed_lines_are_source_lines(code: Seq<char>, file: Seq<char>)
    requires
        parse_file_ok(code, file),
        lines_spec(code).len() <= usize::MAX,
    ensures
        ({
            let p = parse_file_spec(code, file);
            let n = lines_spec(code).len() as int;
            let iface = match p.2 {
                Some(b) => b.lines,
                None => seq![],
            };
            &&& rest_faithful(p.3, lines_spec(code), file, n)
            &&& rest_faithful(use_lines(p.0), lines_spec(code), file, n)
            &&& rest_faithful(extern_lines(p.1), lines_spec(code), file, n)
            &&& numbered_lines(iface, file, n)
            &&& apart(p.3, use_lines(p.0))
            &&& apart(p.3, extern_lines(p.1))
            &&& apart(p.3, iface)
            &&& apart(use_lines(p.0), extern_lines(p.1))
            &&& apart(use_lines(p.0), iface)
            &&& apart(extern_lines(p.1), iface)
            &&& p.2 matches Some(b) ==> b.lines.len() > 0 && b.file == file
        }),
{
    let lines = lines_spec(code);
    lemma_scan_faithful(lines, file, lines.len() as int);
    let st = scan_file(code, file).unwrap();
    if st.iface.len() == 0 {
        assert(st.iface =~= seq![]);
    }
}

/// The front end's state while it reads a file.
struct Scanner {
    uses: Vec<UseStatement>,
    externs: Vec<ExternMod>,
    iface: Vec<Line>,
    rest: Vec<Line>,
    in_iface: bool,
    depth: usize,
    iface_start: usize,
    iface_attrs: Vec<Attribute>,
    pending: Vec<Attribute>,
}

impl View for Scanner {
    type V = ParseState;

    closed spec fn view(&self) -> ParseState {
        ParseState {
            uses: use_views(self.uses@),
            externs: extern_views(self.externs@),
            iface: line_views(self.iface@),
            rest: line_views(self.rest@),
            in_iface: self.in_iface,
            depth: self.depth,
            iface_start: self.iface_start,
            iface_attrs: attr_views(self.iface_attrs@),
            pending: attr_views(self.pending@),
        }
    }
}

/// Takes the pending attributes, leaving none.
fn take_pending(st: &mut Scanner) -> (a: Vec<Attribute>)
    ensures
        attr_views(a@) == old(st)@.pending,
        final(st)@ == (ParseState { pending: seq![], ..old(st)@ }),
{
    let mut a: Vec<Attribute> = Vec::new();
    core::mem::swap(&mut a, &mut st.pending);
    assert(attr_views(st.pending@) =~= seq![]);
    a
}

/// Builds a line.
fn make_line(content: &Vec<char>, num: usize, file: &str, attrs: Vec<Attribute>) -> (l: Line)
    ensures
        l@ == (LineView { content: content@, line_num: num, file: file@, attrs: attr_views(attrs@) }),
{
    Line { content: string_of(content), line_num: num, file: file.to_owned(), attrs }
}

/// `p` removed from `s` everywhere.
fn remove_chars(s: &Vec<char>, p: &Vec<char>) -> (r: Vec<char>)
    requires
        p@.len() > 0,
    ensures
        r@ == remove_all(s@, p@),
{
    let e: Vec<char> = Vec::new();
    assert(e@ =~= seq![]);
    replace_chars(s, p, &e)
}

/// The part of a line that the front end reads.
fn line_code(line: &Vec<char>) -> (c: Vec<char>)
    ensures
        c@ == code_part(line@),
{
    let content = trim(line);
    let sl = vec!['/', '/'];
    assert(sl@ =~= seq!['/', '/']);
    match find_from(&content, &sl, 0) {
        Some(k) => {
            proof {
                lemma_first_occurrence_found(content@, sl@, 0);
            }
            let pre = slice_of(&content, 0, k);
            assert(pre@ =~= content@.take(k as int));
            trim(&pre)
        },
        None => content,
    }
}

/// Reads one line.
fn scan_line(st: &mut Scanner, line: &Vec<char>, num: usize, file: &str)
    requires
        step_spec(old(st)@, line@, num, file@) is Some,
    ensures
        final(st)@ == step_spec(old(st)@, line@, num, file@).unwrap(),
{
    let ghost st0 = st@;
    let c = line_code(line);
    let open = count_occurrences(&c, '{');
    let close = count_occurrences(&c, '}');
    let attr_open = vec!['#', '['];
    let attr_close = vec![']'];
    let slsl = vec!['/', '/'];
    let slst = vec!['/', '*'];
    let use_kw = vec!['u', 's', 'e', ' '];
    let ext_kw = vec!['e', 'x', 't', 'e', 'r', 'n', ' ', 'm', 'o', 'd', ' '];
    let if_kw = vec!['i', 'n', 't', 'e', 'r', 'f', 'a', 'c', 'e'];
    let lb = vec!['{'];
    let rb = vec!['}'];
    assert(attr_open@ =~= seq!['#', '[']);
    assert(attr_close@ =~= seq![']']);
    assert(slsl@ =~= seq!['/', '/']);
    assert(slst@ =~= seq!['/', '*']);
    assert(use_kw@ =~= seq!['u', 's', 'e', ' ']);
    assert(ext_kw@ =~= seq!['e', 'x', 't', 'e', 'r', 'n', ' ', 'm', 'o', 'd', ' ']);
    assert(if_kw@ =~= seq!['i', 'n', 't', 'e', 'r', 'f', 'a', 'c', 'e']);
    assert(lb@ =~= seq!['{']);
    assert(rb@ =~= seq!['}']);
    if starts_with(&c, &attr_open) && ends_with(&c, &attr_close) {
        let a = parse_attribute(&c);
        st.pending.push(a);
        assert(st@ =~= step_spec(st0, line@, num, file@).unwrap());
        return;
    }
    if !st.in_iface && (c.len() == 0 || starts_with(&c, &slsl) || starts_with(&c, &slst)) {
        let attrs = take_pending(st);
        let l = make_line(line, num, file, attrs);
        st.rest.push(l);
        assert(st@ =~= step_spec(st0, line@, num, file@).unwrap());
        return;
    }
    if !st.in_iface && starts_with(&c, &use_kw) {
        let r = parse_use_statement(&c);
        match r {
            Some((path, items)) => {
                let attrs = take_pending(st);
                let l = make_line(line, num, file, attrs);
                st.uses.push(UseStatement { path, items, _line: l });
                assert(st@ =~= step_spec(st0, line@, num, file@).unwrap());
                return;
            },
            None => {},
        }
    }
    if !st.in_iface && starts_with(&c, &ext_kw) {
        match match_extern(&c) {
            Some((name, ip)) => {
                let attrs = take_pending(st);
                let l = make_line(line, num, file, attrs);
                let inline_path = match ip {
                    Some(p) => Some(string_of(&p)),
                    None => None,
                };
                st.externs.push(ExternMod { name: string_of(&name), inline_path, _line: l });
                assert(st@ =~= step_spec(st0, line@, num, file@).unwrap());
                return;
            },
            None => {},
        }
    }
    if !st.in_iface && starts_with(&c, &if_kw) {
        let attrs = take_pending(st);
        st.in_iface = true;
        st.iface_start = num;
        st.iface_attrs = attrs;
        let depth = if open >= close {
            open - close
        } else {
            0
        };
        st.depth = depth;
        let no_kw = remove_chars(&c, &if_kw);
        if depth == 0 {
            let inner = trim(&remove_chars(&remove_chars(&no_kw, &lb), &rb));
            let ghost old_iface = st.iface@;
            if inner.len() > 0 {
                let ev: Vec<Attribute> = Vec::new();
                assert(attr_views(ev@) =~= seq![]);
                let l = make_line(&inner, num, file, ev);
                st.iface.push(l);
                assert(line_views(st.iface@) =~= line_views(old_iface).push(l@));
            }
            st.in_iface = false;
        } else {
            let inner = trim(&remove_chars(&no_kw, &lb));
            let ghost old_iface = st.iface@;
            if inner.len() > 0 {
                let ev: Vec<Attribute> = Vec::new();
                assert(attr_views(ev@) =~= seq![]);
                let l = make_line(&inner, num, file, ev);
                st.iface.push(l);
                assert(line_views(st.iface@) =~= line_views(old_iface).push(l@));
            }
        }
        assert(st@ =~= step_spec(st0, line@, num, file@).unwrap());
        return;
    }
    if st.in_iface {
        let attrs = take_pending(st);
        let d = st.depth + open - close;
        if d == 0 {
            let inner = trim(&remove_chars(&c, &rb));
            if inner.len() > 0 {
                let l = make_line(&inner, num, file, attrs);
                st.iface.push(l);
            }
            st.in_iface = false;
            st.depth = 0;
        } else {
            let l = make_line(line, num, file, attrs);
            st.iface.push(l);
            st.depth = d;
        }
        assert(st@ =~= step_spec(st0, line@, num, file@).unwrap());
        return;
    }
    let attrs = take_pending(st);
    let l = make_line(line, num, file, attrs);
    st.rest.push(l);
    assert(st@ =~= step_spec(st0, line@, num, file@).unwrap());
}


/// Whether an attribute line can be read.
fn attribute_line_ok(c: &Vec<char>) -> (b: bool)
    ensures
        b == attribute_ok(c@),
{
    let open = vec!['#', '['];
    let close = vec![']'];
    assert(open@ =~= seq!['#', '[']);
    assert(close@ =~= seq![']']);
    let inner = trim_end_matches(&trim_start_matches(c, &open), &close);
    let p = find_char(&inner, '(');
    proof {
        lemma_char_end_bounds(inner@, 0, '(');
    }
    if p < inner.len() {
        p + 1 < inner.len() && (inner[inner.len() - 1] as u32) < 0x80
    } else {
        true
    }
}

/// Whether one line can be read in the given state.
fn step_ok(st: &Scanner, line: &Vec<char>, num: usize, file: &str) -> (b: bool)
    ensures
        b == step_spec(st@, line@, num, file@) is Some,
{
    let c = line_code(line);
    let attr_open = vec!['#', '['];
    let attr_close = vec![']'];
    assert(attr_open@ =~= seq!['#', '[']);
    assert(attr_close@ =~= seq![']']);
    if starts_with(&c, &attr_open) && ends_with(&c, &attr_close) {
        return attribute_line_ok(&c);
    }
    if st.in_iface {
        let open = count_occurrences(&c, '{');
        let close = count_occurrences(&c, '}');
        match st.depth.checked_add(open) {
            Some(x) => x >= close,
            None => false,
        }
    } else {
        true
    }
}

/// Reads every line of `code`, or reports that a line cannot be read.
fn scan_code(code: &str, file: &str) -> (r: Option<Scanner>)
    ensures
        match r {
            Some(st) => scan_file(code@, file@) == Some(st@),
            None => scan_file(code@, file@) is None,
        },
{
    let chars = chars_of(code);
    let lines = split_lines(&chars);
    let mut st = Scanner {
        uses: Vec::new(),
        externs: Vec::new(),
        iface: Vec::new(),
        rest: Vec::new(),
        in_iface: false,
        depth: 0,
        iface_start: 0,
        iface_attrs: Vec::new(),
        pending: Vec::new(),
    };
    assert(st@ =~= initial_state());
    let mut k: usize = 0;
    while k < lines.len()
        invariant
            k <= lines@.len(),
            views(lines@) == lines_spec(code@),
            scan_spec(views(lines@), file@, k as int) == Some(st@),
        decreases lines@.len() - k,
    {
        assert(views(lines@)[k as int] == lines@[k as int]@);
        if !step_ok(&st, &lines[k], k + 1, file) {
            proof {
                assert(scan_spec(views(lines@), file@, k + 1) is None);
                if scan_spec(views(lines@), file@, lines@.len() as int) is Some {
                    lemma_scan_prefix(views(lines@), file@, k + 1, lines@.len() as int);
                }
            }
            return None;
        }
        scan_line(&mut st, &lines[k], k + 1, file);
        k = k + 1;
    }
    Some(st)
}

/// The view of an optional interface block.
pub open spec fn opt_iface_view(o: Option<InterfaceBlock>) -> Option<InterfaceView> {
    match o {
        Some(b) => Some(b@),
        None => None,
    }
}

/// What `parse_file` returns for `code` read from `file`, where it can be read.
pub open spec fn parse_file_spec(code: Seq<char>, file: Seq<char>) -> (
    Seq<UseView>,
    Seq<ExternView>,
    Option<InterfaceView>,
    Seq<LineView>,
) {
    let st = scan_file(code, file).unwrap();
    (st.uses, st.externs, interface_of(st, file), st.rest)
}

/// Whether [`parse_file`] can read `code`: no attribute line in it cuts its
/// argument text at a position that is not a character boundary or before
/// its start, and the brace depth of the interface block never leaves the
/// range of `usize` (in which cases reading the file would panic).
pub fn can_parse_file(code: &str, file: &str) -> (b: bool)
    ensures
        b == parse_file_ok(code@, file@),
{
    scan_code(code, file).is_some()
}

/// Splits a source file into its `use` statements, its `extern mod`
/// declarations, its interface block (if it has one) and the remaining lines.
///
/// Lines are taken as `str::lines` gives them; each is trimmed and cut at
/// its first `//` for classification, but keeps its full text where it is
/// stored. `#[..]` lines become attributes of the next stored line (or of
/// the interface block, for the line that opens it).
pub fn parse_file(code: &str, file: &str) -> (r: Result<
    (Vec<UseStatement>, Vec<ExternMod>, Option<InterfaceBlock>, RestCode),
    RcppError,
>)
    requires
        parse_file_ok(code@, file@),
    ensures
        r matches Ok((uses, externs, iface, rest)) && use_views(uses@) == parse_file_spec(
            code@,
            file@,
        ).0 && extern_views(externs@) == parse_file_spec(code@, file@).1 && opt_iface_view(iface)
            == parse_file_spec(code@, file@).2 && rest@ == parse_file_spec(code@, file@).3,
{
    let st = scan_code(code, file).unwrap();
    let iface = if st.iface.len() == 0 {
        None
    } else {
        Some(
            InterfaceBlock {
                lines: st.iface,
                _start_line: st.iface_start,
                file: file.to_owned(),
                attrs: st.iface_attrs,
            },
        )
    };
    Ok((st.uses, st.externs, iface, RestCode { lines: st.rest }))
}

} // verus!
