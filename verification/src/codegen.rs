//! The code generator: module names and hashes, the module registry, the
//! source map, attribute translation, and the text of the generated C++
//! header and source files (each line translated by `crate::rewrite`).
use vstd::prelude::*;
use crate::parser::{
    attr_views, Attribute, AttributeView, copy_string, extern_views, ExternMod, ExternView,
    InterfaceBlock, InterfaceView, Line, line_views, LineView, opt_iface_view, RestCode, use_views,
    UseStatement, UseView,
};
use crate::strmap::StrMap;
use crate::text::{
    append_chars, append_str, chars_eq, chars_of, decimal, digit_char, find_from, first_occurrence,
    has_prefix, hex_padded, join_chars, join_spec, lemma_first_occurrence_found, occurs_at,
    push_decimal, push_hex, replace_chars, replace_spec, starts_with, string_of, strip_suffixes,
    trim, trim_spec, views,
};

verus! {

// ---------------------------------------------------------------------
// Module registry
// ---------------------------------------------------------------------

/// What is known of a registered module: its C++ namespace and the hash
/// that names its generated files.
#[derive(Debug, Clone)]
pub struct ModuleInfo {
    pub _namespace: String,
    pub hash: String,
}

/// The abstract value of a [`ModuleInfo`].
pub struct ModuleInfoView {
    pub namespace: Seq<char>,
    pub hash: Seq<char>,
}

impl View for ModuleInfo {
    type V = ModuleInfoView;

    open spec fn view(&self) -> ModuleInfoView {
        ModuleInfoView { namespace: self._namespace@, hash: self.hash@ }
    }
}

/// The modules known by name.
pub struct ModuleRegistry {
    pub modules: StrMap<ModuleInfo>,
}

impl View for ModuleRegistry {
    type V = Map<Seq<char>, ModuleInfoView>;

    open spec fn view(&self) -> Map<Seq<char>, ModuleInfoView> {
        self.modules.map().map_values(|m: ModuleInfo| m@)
    }
}

impl ModuleRegistry {
    /// An empty registry.
    pub fn new() -> (r: Self)
        ensures
            r@ == Map::<Seq<char>, ModuleInfoView>::empty(),
    {
        let r = Self { modules: StrMap::new() };
        assert(r@ =~= Map::<Seq<char>, ModuleInfoView>::empty());
        r
    }

    /// Records `name` as the module with the given namespace and hash,
    /// replacing what was recorded under that name.
    pub fn register(&mut self, name: String, namespace: String, hash: String)
        ensures
            final(self)@ == old(self)@.insert(
                name@,
                ModuleInfoView { namespace: namespace@, hash: hash@ },
            ),
    {
        let ghost k = name@;
        let info = ModuleInfo { _namespace: namespace, hash };
        let ghost iv = info@;
        self.modules.insert(name, info);
        assert(self@ =~= old(self)@.insert(k, iv));
    }

    /// The module recorded under `name`.
    pub fn get(&self, name: &str) -> (r: Option<&ModuleInfo>)
        ensures
            match r {
                Some(m) => self@.contains_key(name@) && self@[name@] == m@,
                None => !self@.contains_key(name@),
            },
    {
        self.modules.get(name)
    }
}

/// A registry answers a lookup of a name with what was last registered
/// under it, and registering one name leaves the others as they were.
pub proof fn law_registry_get_after_register(
    reg: Map<Seq<char>, ModuleInfoView>,
    name: Seq<char>,
    info: ModuleInfoView,
    other: Seq<char>,
)
    ensures
        reg.insert(name, info).contains_key(name),
        reg.insert(name, info)[name] == info,
        other != name ==> (reg.insert(name, info).contains_key(other) == reg.contains_key(other)
            && reg.insert(name, info)[other] == reg[other]),
{
}

// ---------------------------------------------------------------------
// Source map
// ---------------------------------------------------------------------

/// Which line of a generated file comes from which line of a source file:
/// entries `(source file, source line, generated file, generated line)`.
pub struct SourceMap {
    pub entries: Vec<(String, usize, String, usize)>,
}

impl View for SourceMap {
    type V = Seq<(Seq<char>, usize, Seq<char>, usize)>;

    open spec fn view(&self) -> Seq<(Seq<char>, usize, Seq<char>, usize)> {
        self.entries@.map_values(|e: (String, usize, String, usize)| (e.0@, e.1, e.2@, e.3))
    }
}

/// The header line of the source map's CSV text.
pub open spec fn csv_header() -> Seq<char> {
    seq![
        's', 'r', 'c', '_', 'f', 'i', 'l', 'e', ',', 's', 'r', 'c', '_', 'l', 'i', 'n', 'e', ',',
        'd', 's', 't', '_', 'f', 'i', 'l', 'e', ',', 'd', 's', 't', '_', 'l', 'i', 'n', 'e', '\n',
    ]
}

/// One CSV row.
pub open spec fn csv_row(e: (Seq<char>, usize, Seq<char>, usize)) -> Seq<char> {
    e.0 + seq![','] + decimal(e.1 as nat) + seq![','] + e.2 + seq![','] + decimal(e.3 as nat)
        + seq!['\n']
}

/// The CSV rows of the entries.
pub open spec fn csv_rows(es: Seq<(Seq<char>, usize, Seq<char>, usize)>) -> Seq<char>
    decreases es.len(),
{
    if es.len() == 0 {
        seq![]
    } else {
        csv_rows(es.drop_last()) + csv_row(es.last())
    }
}

impl SourceMap {
    /// An empty source map.
    pub fn new() -> (m: Self)
        ensures
            m@ == Seq::<(Seq<char>, usize, Seq<char>, usize)>::empty(),
    {
        let m = Self { entries: Vec::new() };
        assert(m@ =~= Seq::<(Seq<char>, usize, Seq<char>, usize)>::empty());
        m
    }

    /// Adds an entry.
    pub fn add(&mut self, src_file: &str, src_line: usize, dst_file: &str, dst_line: usize)
        ensures
            final(self)@ == old(self)@.push((src_file@, src_line, dst_file@, dst_line)),
    {
        self.entries.push((src_file.to_owned(), src_line, dst_file.to_owned(), dst_line));
        assert(self@ =~= old(self)@.push((src_file@, src_line, dst_file@, dst_line)));
    }

    /// The map as CSV text: a header line, then one line per entry.
    pub fn to_csv(&self) -> (s: String)
        ensures
            s@ == csv_header() + csv_rows(self@),
    {
        let mut out: Vec<char> = Vec::new();
        append_str(&mut out, "src_file,src_line,dst_file,dst_line\n");
        proof {
            reveal_strlit("src_file,src_line,dst_file,dst_line\n");
        }
        assert(out@ =~= csv_header());
        let mut i: usize = 0;
        while i < self.entries.len()
            invariant
                i <= self@.len(),
                self@.len() == self.entries@.len(),
                out@ == csv_header() + csv_rows(self@.take(i as int)),
            decreases self@.len() - i,
        {
            let e = &self.entries[i];
            let ghost before = out@;
            append_str(&mut out, e.0.as_str());
            out.push(',');
            push_decimal(&mut out, e.1);
            out.push(',');
            append_str(&mut out, e.2.as_str());
            out.push(',');
            push_decimal(&mut out, e.3);
            out.push('\n');
            assert(self@.take(i + 1).drop_last() =~= self@.take(i as int));
            assert(out@ =~= before + csv_row(self@[i as int]));
            i = i + 1;
        }
        assert(self@.take(i as int) =~= self@);
        string_of(&out)
    }
}

// ---------------------------------------------------------------------
// Module hashes
// ---------------------------------------------------------------------

/// The 64-bit FNV-1a offset basis.
pub const FNV_OFFSET: u64 = 0xcbf29ce484222325;

/// The 64-bit FNV prime.
pub const FNV_PRIME: u64 = 0x100000001b3;

/// The 64-bit FNV-1a hash of a byte sequence.
pub open spec fn fnv1a(bytes: Seq<u8>) -> u64
    decreases bytes.len(),
{
    if bytes.len() == 0 {
        FNV_OFFSET
    } else {
        vstd::wrapping::u64_specs::wrapping_mul(
            fnv1a(bytes.drop_last()) ^ (bytes.last() as u64),
            FNV_PRIME,
        )
    }
}

/// The name that the generated files of the module `path` carry: the
/// FNV-1a hash of its UTF-8 bytes as 16 lower-case hexadecimal digits.
pub open spec fn module_hash(path: Seq<char>) -> Seq<char> {
    hex_padded(fnv1a(vstd::utf8::encode_utf8(path)) as nat, 16)
}

pub proof fn lemma_hex_padded(n: nat, width: nat)
    ensures
        hex_padded(n, width).len() == width,
        forall|i: int|
            0 <= i < width ==> crate::text::hex_digit_chars().contains(
                #[trigger] hex_padded(n, width)[i],
            ),
    decreases width,
{
    if width > 0 {
        lemma_hex_padded(n / 16, (width - 1) as nat);
        let d = digit_char(n % 16);
        assert(crate::text::hex_digit_chars()[(n % 16) as int] == d);
        assert forall|i: int| 0 <= i < width implies crate::text::hex_digit_chars().contains(
            #[trigger] hex_padded(n, width)[i],
        ) by {
            if i < width - 1 {
                assert(hex_padded(n, width)[i] == hex_padded(n / 16, (width - 1) as nat)[i]);
            }
        }
    }
}

/// Every module hash is exactly 16 characters, each a lower-case
/// hexadecimal digit.
pub proof fn law_module_hash_shape(path: Seq<char>)
    ensures
        module_hash(path).len() == 16,
        forall|i: int|
            0 <= i < 16 ==> crate::text::hex_digit_chars().contains(#[trigger] module_hash(path)[i]),
{
    lemma_hex_padded(fnv1a(vstd::utf8::encode_utf8(path)) as nat, 16);
}

/// Hashes a module path.
pub fn hash_module_path(path: &str) -> (h: String)
    ensures
        h@ == module_hash(path@),
{
    let bytes = path.as_bytes();
    let mut hash: u64 = FNV_OFFSET;
    let mut i: usize = 0;
    assert(bytes@.take(0) =~= Seq::<u8>::empty());
    while i < bytes.len()
        invariant
            i <= bytes@.len(),
            bytes@ == vstd::utf8::encode_utf8(path@),
            hash == fnv1a(bytes@.take(i as int)),
        decreases bytes@.len() - i,
    {
        assert(bytes@.take(i + 1).drop_last() =~= bytes@.take(i as int));
        hash = hash ^ (bytes[i] as u64);
        hash = hash.wrapping_mul(FNV_PRIME);
        i = i + 1;
    }
    assert(bytes@.take(i as int) =~= bytes@);
    let mut out: Vec<char> = Vec::new();
    push_hex(&mut out, hash, 16);
    assert(out@ =~= module_hash(path@));
    string_of(&out)
}


// ---------------------------------------------------------------------
// Attributes
// ---------------------------------------------------------------------

/// The build configuration as a map of strings.
pub open spec fn cfg_view(m: StrMap<String>) -> Map<Seq<char>, Seq<char>> {
    m.map().map_values(|s: String| s@)
}

/// Every `cfg` attribute among `attrs` is satisfied: each of its arguments
/// `key = value` is set to exactly `value` in the configuration.
pub open spec fn cfg_holds(attrs: Seq<AttributeView>, cfg: Map<Seq<char>, Seq<char>>) -> bool {
    forall|i: int, j: int|
        0 <= i < attrs.len() && attrs[i].name == "cfg"@ && 0 <= j < attrs[i].args.len() ==> {
            &&& cfg.contains_key(#[trigger] attrs[i].args[j].0)
            &&& cfg[attrs[i].args[j].0] == attrs[i].args[j].1
        }
}

/// An item is kept exactly when every argument of every `cfg` attribute
/// among its attributes is set, in the build configuration, to the value
/// that the argument names; each argument counts, not only the first.
pub proof fn law_cfg_every_argument(attrs: Seq<AttributeView>, cfg: Map<Seq<char>, Seq<char>>)
    ensures
        translate_attrs_spec(attrs, cfg).1 <==> forall|i: int, j: int|
            0 <= i < attrs.len() && attrs[i].name == "cfg"@ && 0 <= j < attrs[i].args.len()
                ==> cfg.contains_key(#[trigger] attrs[i].args[j].0) && cfg[attrs[i].args[j].0]
                == attrs[i].args[j].1,
{
}

/// Whether two strings have the same characters.
fn same_text(a: &str, b: &str) -> (r: bool)
    ensures
        r == (a@ == b@),
{
    chars_eq(&chars_of(a), &chars_of(b))
}

/// Whether the `cfg` attributes among `attrs` are satisfied by `build_cfg`.
fn evaluate_cfg(attrs: &[Attribute], build_cfg: &StrMap<String>) -> (b: bool)
    ensures
        b == cfg_holds(attr_views(attrs@), cfg_view(*build_cfg)),
{
    let ghost av = attr_views(attrs@);
    let mut i: usize = 0;
    while i < attrs.len()
        invariant
            i <= attrs@.len(),
            av == attr_views(attrs@),
            forall|ii: int, j: int|
                0 <= ii < i && av[ii].name == "cfg"@ && 0 <= j < av[ii].args.len() ==> {
                    &&& cfg_view(*build_cfg).contains_key(#[trigger] av[ii].args[j].0)
                    &&& cfg_view(*build_cfg)[av[ii].args[j].0] == av[ii].args[j].1
                },
        decreases attrs@.len() - i,
    {
        let attr = &attrs[i];
        if same_text(attr.name.as_str(), "cfg") {
            let mut j: usize = 0;
            while j < attr.args.len()
                invariant
                    i < attrs@.len(),
                    *attr == attrs@[i as int],
                    av == attr_views(attrs@),
                    av[i as int].name == "cfg"@,
                    j <= attr.args@.len(),
                    forall|ii: int, jj: int|
                        0 <= ii < i && av[ii].name == "cfg"@ && 0 <= jj < av[ii].args.len() ==> {
                            &&& cfg_view(*build_cfg).contains_key(#[trigger] av[ii].args[jj].0)
                            &&& cfg_view(*build_cfg)[av[ii].args[jj].0] == av[ii].args[jj].1
                        },
                    forall|jj: int|
                        0 <= jj < j ==> {
                            &&& cfg_view(*build_cfg).contains_key(#[trigger] av[i as int].args[jj].0)
                            &&& cfg_view(*build_cfg)[av[i as int].args[jj].0] == av[i as int].args[jj].1
                        },
                decreases attr.args@.len() - j,
            {
                let k = &attr.args[j].0;
                let v = &attr.args[j].1;
                assert(av[i as int].args[j as int] == (k@, v@));
                match build_cfg.get(k.as_str()) {
                    Some(x) => {
                        if !(*x == *v) {
                            assert(cfg_view(*build_cfg)[k@] == x@);
                            assert(!cfg_holds(av, cfg_view(*build_cfg))) by {
                                assert(av[i as int].args[j as int].0 == k@);
                            }
                            return false;
                        }
                    },
                    None => {
                        assert(!cfg_view(*build_cfg).contains_key(k@));
                        assert(!cfg_holds(av, cfg_view(*build_cfg))) by {
                            assert(av[i as int].args[j as int].0 == k@);
                        }
                        return false;
                    },
                }
                j = j + 1;
            }
        }
        i = i + 1;
    }
    true
}

/// The value of the first argument named `key`.
pub open spec fn first_arg(args: Seq<(Seq<char>, Seq<char>)>, key: Seq<char>) -> Option<Seq<char>>
    decreases args.len(),
{
    if args.len() == 0 {
        None
    } else if args[0].0 == key {
        Some(args[0].1)
    } else {
        first_arg(args.drop_first(), key)
    }
}

/// The C++ text for one attribute, if it has one: `no_mangle` gives
/// `extern "C"`, `inline` gives `inline`, `export_name = N` (or
/// `export_name(name = N)`) gives `[[gnu::alias("N")]]` and `section = S`
/// (or `section(name = S)`) gives `[[gnu::section("S")]]`.
pub open spec fn attr_cpp(a: AttributeView) -> Seq<Seq<char>> {
    if a.name == "no_mangle"@ {
        seq!["extern \"C\""@]
    } else if a.name == "inline"@ {
        seq!["inline"@]
    } else if a.name == "export_name"@ {
        match first_arg(a.args, "name"@) {
            Some(v) => seq!["[[gnu::alias(\""@ + v + "\")]]"@],
            None => seq![],
        }
    } else if a.name == "section"@ {
        match first_arg(a.args, "name"@) {
            Some(v) => seq!["[[gnu::section(\""@ + v + "\")]]"@],
            None => seq![],
        }
    } else {
        seq![]
    }
}

/// The C++ texts of a list of attributes, in order.
pub open spec fn attrs_cpp(attrs: Seq<AttributeView>) -> Seq<Seq<char>>
    decreases attrs.len(),
{
    if attrs.len() == 0 {
        seq![]
    } else {
        attrs_cpp(attrs.drop_last()) + attr_cpp(attrs.last())
    }
}

/// What `translate_attrs` gives: when a `cfg` attribute is not satisfied,
/// nothing and `false` (leave the item out); otherwise the C++ texts of the
/// attributes joined by spaces with a trailing space (or nothing when there
/// are none) and `true`.
pub open spec fn translate_attrs_spec(attrs: Seq<AttributeView>, cfg: Map<Seq<char>, Seq<char>>) -> (
    Seq<char>,
    bool,
) {
    if !cfg_holds(attrs, cfg) {
        (seq![], false)
    } else if attrs_cpp(attrs).len() == 0 {
        (seq![], true)
    } else {
        (join_spec(attrs_cpp(attrs), " "@) + " "@, true)
    }
}

/// The value of the first argument of `a` named `name`.
fn name_arg(a: &Attribute) -> (r: Option<&String>)
    ensures
        match r {
            Some(v) => first_arg(a@.args, "name"@) == Some(v@),
            None => first_arg(a@.args, "name"@) is None,
        },
{
    let mut i: usize = 0;
    assert(a@.args.skip(0) =~= a@.args);
    while i < a.args.len()
        invariant
            i <= a.args@.len(),
            first_arg(a@.args, "name"@) == first_arg(a@.args.skip(i as int), "name"@),
        decreases a.args@.len() - i,
    {
        assert(a@.args.skip(i as int)[0] == (a.args@[i as int].0@, a.args@[i as int].1@));
        assert(a@.args.skip(i as int).drop_first() =~= a@.args.skip(i + 1));
        if same_text(a.args[i].0.as_str(), "name") {
            return Some(&a.args[i].1);
        }
        i = i + 1;
    }
    assert(a@.args.skip(i as int) =~= Seq::<(Seq<char>, Seq<char>)>::empty());
    None
}

/// The C++ text for one attribute, appended to `out`.
fn push_attr_cpp(a: &Attribute, out: &mut Vec<Vec<char>>)
    ensures
        views(final(out)@) == views(old(out)@) + attr_cpp(a@),
{
    let ghost before = views(out@);
    let mut t: Vec<char> = Vec::new();
    if same_text(a.name.as_str(), "no_mangle") {
        append_str(&mut t, "extern \"C\"");
    } else if same_text(a.name.as_str(), "inline") {
        append_str(&mut t, "inline");
    } else if same_text(a.name.as_str(), "export_name") {
        match name_arg(a) {
            Some(v) => {
                append_str(&mut t, "[[gnu::alias(\"");
                append_str(&mut t, v.as_str());
                append_str(&mut t, "\")]]");
            },
            None => {
                return;
            },
        }
    } else if same_text(a.name.as_str(), "section") {
        match name_arg(a) {
            Some(v) => {
                append_str(&mut t, "[[gnu::section(\"");
                append_str(&mut t, v.as_str());
                append_str(&mut t, "\")]]");
            },
            None => {
                return;
            },
        }
    } else {
        return;
    }
    out.push(t);
    assert(views(out@) =~= before + attr_cpp(a@));
}

/// Translates attributes to C++: `(text, true)` when the item is kept,
/// `("", false)` when a `cfg` attribute leaves it out.
pub fn translate_attrs(attrs: &[Attribute], build_cfg: &StrMap<String>) -> (r: (String, bool))
    ensures
        (r.0@, r.1) == translate_attrs_spec(attr_views(attrs@), cfg_view(*build_cfg)),
{
    if !evaluate_cfg(attrs, build_cfg) {
        return (string_of(&Vec::new()), false);
    }
    let mut texts: Vec<Vec<char>> = Vec::new();
    let mut i: usize = 0;
    while i < attrs.len()
        invariant
            i <= attrs@.len(),
            views(texts@) == attrs_cpp(attr_views(attrs@).take(i as int)),
        decreases attrs@.len() - i,
    {
        assert(attr_views(attrs@).take(i + 1).drop_last() =~= attr_views(attrs@).take(i as int));
        push_attr_cpp(&attrs[i], &mut texts);
        i = i + 1;
    }
    assert(attr_views(attrs@).take(i as int) =~= attr_views(attrs@));
    if texts.len() == 0 {
        (string_of(&Vec::new()), true)
    } else {
        let sp = chars_of(" ");
        let mut out = join_chars(&texts, &sp);
        append_str(&mut out, " ");
        (string_of(&out), true)
    }
}


// ---------------------------------------------------------------------
// Paths and module names
// ---------------------------------------------------------------------

/// `dir` joined with the relative or absolute path `file`, as
/// `Path::join` does on Unix-like systems: an absolute `file` replaces
/// `dir`, and a `/` is put between them where `dir` is not empty and does
/// not end in one.
pub open spec fn join_path(dir: Seq<char>, file: Seq<char>) -> Seq<char> {
    if file.len() > 0 && file[0] == '/' {
        file
    } else if dir.len() == 0 || dir.last() == '/' {
        dir + file
    } else {
        dir + seq!['/'] + file
    }
}

/// Joins a directory and a file name.
pub fn join_path_text(dir: &Vec<char>, file: &Vec<char>) -> (r: Vec<char>)
    ensures
        r@ == join_path(dir@, file@),
{
    if file.len() > 0 && file[0] == '/' {
        return crate::text::slice_of(file, 0, file.len());
    }
    let mut r = crate::text::slice_of(dir, 0, dir.len());
    if !(dir.len() == 0 || dir[dir.len() - 1] == '/') {
        r.push('/');
    }
    append_chars(&mut r, file);
    r
}

/// The piece of `s` after the last separator `sep` found scanning from the
/// left (the last item of `str::split(sep)`).
pub open spec fn last_piece(s: Seq<char>, sep: Seq<char>) -> Seq<char>
    decreases s.len(),
{
    if sep.len() == 0 {
        s
    } else {
        match first_occurrence(s, sep, 0) {
            Some(i) => {
                proof {
                    lemma_first_occurrence_found(s, sep, 0);
                }
                last_piece(s.skip(i + sep.len()), sep)
            },
            None => s,
        }
    }
}

pub proof fn lemma_first_occurrence_skip(s: Seq<char>, p: Seq<char>, k: int, j: int)
    requires
        0 <= k <= s.len(),
        0 <= j,
    ensures
        match first_occurrence(s.skip(k), p, j) {
            Some(i) => first_occurrence(s, p, k + j) == Some(i + k),
            None => first_occurrence(s, p, k + j) is None,
        },
    decreases s.len() + 1 - k - j,
{
    let t = s.skip(k);
    if j + p.len() <= t.len() {
        assert(t.subrange(j, j + p.len()) =~= s.subrange(k + j, k + j + p.len()));
        if !occurs_at(t, p, j) {
            lemma_first_occurrence_skip(s, p, k, j + 1);
        }
    }
}

/// The last piece of `s` split at `sep`.
fn last_piece_text(s: &Vec<char>, sep: &Vec<char>) -> (r: Vec<char>)
    requires
        sep@.len() > 0,
    ensures
        r@ == last_piece(s@, sep@),
{
    let mut start: usize = 0;
    assert(s@.skip(0) =~= s@);
    loop
        invariant
            start <= s@.len(),
            sep@.len() > 0,
            last_piece(s@.skip(start as int), sep@) == last_piece(s@, sep@),
        decreases s@.len() - start,
    {
        proof {
            lemma_first_occurrence_skip(s@, sep@, start as int, 0);
        }
        let n = s.len();
        match find_from(s, sep, start) {
            Some(i) => {
                proof {
                    lemma_first_occurrence_found(s@, sep@, start as int);
                }
                assert(s@.skip(start as int).skip(i - start + sep@.len()) =~= s@.skip(
                    i + sep@.len(),
                ));
                start = i + sep.len();
            },
            None => {
                let r = crate::text::slice_of(s, start, s.len());
                assert(r@ =~= s@.skip(start as int));
                return r;
            },
        }
    }
}

/// `path` put under the root module, unless it is already absolute
/// (`::..`), already under the root, or the root itself.
pub open spec fn resolve_namespace_spec(path: Seq<char>, root: Option<Seq<char>>) -> Seq<char> {
    match root {
        Some(r) => if !has_prefix(path, "::"@) && !has_prefix(path, r + "::"@) && path != r {
            r + "::"@ + path
        } else {
            path
        },
        None => path,
    }
}

/// The view of an optional string slice.
pub open spec fn opt_str_view(o: Option<&str>) -> Option<Seq<char>> {
    match o {
        Some(s) => Some(s@),
        None => None,
    }
}

/// Resolves a module path against the root module.
pub fn resolve_namespace_path(path: &str, root_module: Option<&str>) -> (r: String)
    ensures
        r@ == resolve_namespace_spec(path@, opt_str_view(root_module)),
{
    let p = chars_of(path);
    match root_module {
        Some(root) => {
            let sep = chars_of("::");
            let r = chars_of(root);
            let mut rsep = crate::text::slice_of(&r, 0, r.len());
            append_str(&mut rsep, "::");
            assert(rsep@ =~= r@ + "::"@);
            if !starts_with(&p, &sep) && !starts_with(&p, &rsep) && !chars_eq(&p, &r) {
                let mut out = rsep;
                append_chars(&mut out, &p);
                string_of(&out)
            } else {
                string_of(&p)
            }
        },
        None => string_of(&p),
    }
}

/// Resolving a path against the root module twice gives what resolving it
/// once gives.
pub proof fn law_resolve_namespace_idempotent(path: Seq<char>, root: Option<Seq<char>>)
    ensures
        resolve_namespace_spec(resolve_namespace_spec(path, root), root) == resolve_namespace_spec(
            path,
            root,
        ),
{
    if let Some(r) = root {
        let q = resolve_namespace_spec(path, root);
        if q != path {
            assert(q == r + "::"@ + path);
            assert(q.subrange(0, (r + "::"@).len() as int) =~= r + "::"@);
            assert(has_prefix(q, r + "::"@));
        }
    }
}

/// The path of the header that a `use` of `path` includes: the hash of the
/// registered module named by the last `::` piece of `path`, or else the
/// hash of the resolved namespace, as `<hash>.hpp` in the output directory.
pub open spec fn include_path_spec(
    path: Seq<char>,
    root: Option<Seq<char>>,
    reg: Map<Seq<char>, ModuleInfoView>,
    out_dir: Seq<char>,
) -> Seq<char> {
    let base = last_piece(path, "::"@);
    let hash = if reg.contains_key(base) {
        reg[base].hash
    } else {
        module_hash(resolve_namespace_spec(path, root))
    };
    join_path(out_dir, hash + ".hpp"@)
}

/// Finds the header path for `use path`.
pub fn resolve_include_hash(
    path: &str,
    root_module: Option<&str>,
    registry: &ModuleRegistry,
    output_dir: &str,
) -> (r: String)
    ensures
        r@ == include_path_spec(path@, opt_str_view(root_module), registry@, output_dir@),
{
    let ns = resolve_namespace_path(path, root_module);
    let p = chars_of(path);
    let sep = chars_of("::");
    proof {
        reveal_strlit("::");
    }
    let base = string_of(&last_piece_text(&p, &sep));
    let mut file: Vec<char> = match registry.get(base.as_str()) {
        Some(info) => chars_of(info.hash.as_str()),
        None => chars_of(hash_module_path(ns.as_str()).as_str()),
    };
    append_str(&mut file, ".hpp");
    let dir = chars_of(output_dir);
    string_of(&join_path_text(&dir, &file))
}


// ---------------------------------------------------------------------
// Module naming
// ---------------------------------------------------------------------

/// The file stem of a path (`Path::file_stem`): its last component without
/// the extension, or `None` where the path has no file name.
pub uninterp spec fn path_file_stem(p: Seq<char>) -> Option<Seq<char>>;

/// A non-empty file name with no separator, drive colon or dot in it.
pub open spec fn plain_name(s: Seq<char>) -> bool {
    &&& s.len() > 0
    &&& forall|i: int|
        0 <= i < s.len() ==> s[i] != '/' && s[i] != '\\' && s[i] != '.' && s[i] != ':'
}

/// `std::path::Path::file_stem`, as text. Stated: the result is the named
/// function of the path; a plain name is its own stem, and a plain name
/// followed by one extension has that name as its stem (the file name up to
/// its final dot, as the documentation says). Unstated: how `Path` splits
/// other paths into components and a file name into stem and extension.
#[verifier::external_body]
fn file_stem(p: &str) -> (r: Option<String>)
    ensures
        match r {
            Some(s) => path_file_stem(p@) == Some(s@),
            None => path_file_stem(p@) is None,
        },
        plain_name(p@) ==> r is Some && r.unwrap()@ == p@,
        forall|n: Seq<char>, e: Seq<char>|
            #![trigger plain_name(n), plain_name(e)]
            plain_name(n) && plain_name(e) && p@ == n + "."@ + e ==> r is Some
                && r.unwrap()@ == n,
{
    match std::path::Path::new(p).file_stem() {
        Some(s) => Some(s.to_string_lossy().into_owned()),
        None => None,
    }
}

/// The path of a module's source file relative to the `src` directory
/// that holds it, without the `.rcx` extension: backslashes count as
/// slashes, and the text after the first `/src/` is taken; a path without
/// `/src/` gives its file stem, and `None` where it has none.
pub open spec fn relative_path_spec(rcx_path: Seq<char>) -> Option<Seq<char>> {
    let n = replace_spec(rcx_path, "\\"@, "/"@);
    match first_occurrence(n, "/src/"@, 0) {
        Some(idx) => Some(strip_suffixes(n.skip(idx + 5), ".rcx"@)),
        None => path_file_stem(rcx_path),
    }
}

/// The C++ namespace of a module: the root module for the root file `_`
/// (or an empty relative path), otherwise the relative path with `/` turned
/// into `::`, under the root module where there is one.
pub open spec fn namespace_spec(rel: Seq<char>, root: Option<Seq<char>>) -> Seq<char> {
    match root {
        Some(r) => if rel == "_"@ || rel.len() == 0 {
            r
        } else {
            r + "::"@ + replace_spec(rel, "/"@, "::"@)
        },
        None => replace_spec(rel, "/"@, "::"@),
    }
}

/// Replacing every `/` by `::` leaves no `/`.
proof fn lemma_replace_slash(s: Seq<char>)
    ensures
        forall|i: int|
            0 <= i < replace_spec(s, "/"@, "::"@).len() ==> #[trigger] replace_spec(
                s,
                "/"@,
                "::"@,
            )[i] != '/',
    decreases s.len(),
{
    reveal_strlit("/");
    reveal_strlit("::");
    if s.len() > 0 {
        if has_prefix(s, "/"@) {
            lemma_replace_slash(s.skip(1));
            let t = replace_spec(s.skip(1), "/"@, "::"@);
            assert(replace_spec(s, "/"@, "::"@) == "::"@ + t);
            assert forall|i: int| 0 <= i < ("::"@ + t).len() implies #[trigger] ("::"@ + t)[i]
                != '/' by {
                if i >= 2 {
                    assert(("::"@ + t)[i] == t[i - 2]);
                }
            }
        } else {
            assert(s[0] != '/') by {
                if s[0] == '/' {
                    assert(s.subrange(0, 1) =~= "/"@);
                }
            }
            lemma_replace_slash(s.drop_first());
            let t = replace_spec(s.drop_first(), "/"@, "::"@);
            assert(replace_spec(s, "/"@, "::"@) == seq![s[0]] + t);
            assert forall|i: int| 0 <= i < (seq![s[0]] + t).len() implies #[trigger] (seq![s[0]]
                + t)[i] != '/' by {
                if i >= 1 {
                    assert((seq![s[0]] + t)[i] == t[i - 1]);
                }
            }
        }
    }
}

/// A module's namespace never holds a `/` (given a root module without
/// one): every `/` of the relative path becomes `::`. Under a root module,
/// the namespace of a file other than the root file is the root module,
/// `::` and the namespace that the same file has without a root module.
pub proof fn law_namespace_has_no_slash(rel: Seq<char>, root: Option<Seq<char>>)
    requires
        root matches Some(r) ==> forall|i: int| 0 <= i < r.len() ==> r[i] != '/',
    ensures
        forall|i: int|
            0 <= i < namespace_spec(rel, root).len() ==> #[trigger] namespace_spec(rel, root)[i]
                != '/',
        root matches Some(r) ==> (rel != "_"@ && rel.len() > 0 ==> namespace_spec(rel, root) == r
            + "::"@ + namespace_spec(rel, None)),
{
    lemma_replace_slash(rel);
    reveal_strlit("::");
    let t = replace_spec(rel, "/"@, "::"@);
    if let Some(r) = root {
        if !(rel == "_"@ || rel.len() == 0) {
            let ns = r + "::"@ + t;
            assert forall|i: int| 0 <= i < ns.len() implies #[trigger] ns[i] != '/' by {
                if i < r.len() {
                    assert(ns[i] == r[i]);
                } else if i >= r.len() + 2 {
                    assert(ns[i] == t[i - r.len() - 2]);
                }
            }
        }
    }
}

/// The root file `_` (or an empty relative path) is the root module's own
/// namespace, and a relative path without `/` is its own namespace when
/// there is no root module.
pub proof fn law_namespace_root_and_flat(r: Seq<char>, rel: Seq<char>)
    ensures
        namespace_spec("_"@, Some(r)) == r,
        namespace_spec(Seq::<char>::empty(), Some(r)) == r,
        (forall|i: int| 0 <= i < rel.len() ==> rel[i] != '/') ==> namespace_spec(rel, None) == rel,
{
    reveal_strlit("/");
    if forall|i: int| 0 <= i < rel.len() ==> rel[i] != '/' {
        assert forall|q: int| !occurs_at(rel, "/"@, q) by {
            if occurs_at(rel, "/"@, q) {
                assert(rel.subrange(q, q + 1)[0] == rel[q]);
            }
        }
        crate::text::lemma_replace_absent(rel, "/"@, "::"@);
    }
}

/// Where the relative path is `a/b` (neither part holding a `/`), the
/// namespace under root `r` is `r::a::b`.
pub proof fn law_namespace_of_nested_file(r: Seq<char>, a: Seq<char>, b: Seq<char>)
    requires
        a.len() > 0,
        forall|i: int| 0 <= i < a.len() ==> a[i] != '/',
        forall|i: int| 0 <= i < b.len() ==> b[i] != '/',
    ensures
        namespace_spec(a + "/"@ + b, Some(r)) == r + "::"@ + a + "::"@ + b,
{
    reveal_strlit("/");
    reveal_strlit("::");
    reveal_strlit("_");
    let rel = a + "/"@ + b;
    assert(rel.len() > 1);
    assert(rel != "_"@);
    crate::text::lemma_replace_skip_prefix(a, "/"@ + b, "/"@, "::"@);
    assert(rel =~= a + ("/"@ + b));
    let sb = "/"@ + b;
    assert(has_prefix(sb, "/"@)) by {
        assert(sb.subrange(0, 1) =~= "/"@);
    }
    assert(sb.skip(1) =~= b);
    assert forall|q: int| !occurs_at(b, "/"@, q) by {
        if occurs_at(b, "/"@, q) {
            assert(b.subrange(q, q + 1)[0] == b[q]);
        }
    }
    crate::text::lemma_replace_absent(b, "/"@, "::"@);
    assert(replace_spec(rel, "/"@, "::"@) == a + ("::"@ + b));
    assert(namespace_spec(rel, Some(r)) =~= r + "::"@ + a + "::"@ + b);
}

/// The name under which a module is registered: the root module for the
/// root file, otherwise the last `/` piece of the relative path.
pub open spec fn registry_name_spec(rel: Seq<char>, root: Option<Seq<char>>) -> Seq<char> {
    match root {
        Some(r) => if rel == "_"@ || rel.len() == 0 {
            r
        } else {
            crate::text::split_spec(rel, '/').last()
        },
        None => crate::text::split_spec(rel, '/').last(),
    }
}

/// The names of one module.
pub struct ModuleNames {
    pub relative_path: String,
    pub namespace_path: String,
    pub hashed_name: String,
    pub registry_name: String,
}

/// What `module_names` gives for a source path and root module.
pub open spec fn module_names_spec(rcx_path: Seq<char>, root: Option<Seq<char>>) -> Option<
    (Seq<char>, Seq<char>, Seq<char>, Seq<char>),
> {
    match relative_path_spec(rcx_path) {
        Some(rel) => Some(
            (
                rel,
                namespace_spec(rel, root),
                module_hash(namespace_spec(rel, root)),
                registry_name_spec(rel, root),
            ),
        ),
        None => None,
    }
}

/// The view of module names.
pub open spec fn names_view(n: ModuleNames) -> (Seq<char>, Seq<char>, Seq<char>, Seq<char>) {
    (n.relative_path@, n.namespace_path@, n.hashed_name@, n.registry_name@)
}

/// Whether two texts are equal to a literal.
fn is_text(a: &Vec<char>, lit: &str) -> (r: bool)
    ensures
        r == (a@ == lit@),
{
    chars_eq(a, &chars_of(lit))
}

/// The relative path, namespace, file hash and registry name of the module
/// whose source is `rcx_path`; `None` where no relative path can be found.
pub fn module_names(rcx_path: &str, root_module: Option<&str>) -> (r: Option<ModuleNames>)
    ensures
        match r {
            Some(n) => module_names_spec(rcx_path@, opt_str_view(root_module)) == Some(
                names_view(n),
            ),
            None => module_names_spec(rcx_path@, opt_str_view(root_module)) is None,
        },
{
    let p = chars_of(rcx_path);
    let bs = chars_of("\\");
    let sl = chars_of("/");
    let dcolon = chars_of("::");
    let src = chars_of("/src/");
    let ext = chars_of(".rcx");
    proof {
        reveal_strlit("\\");
        reveal_strlit("/src/");
    }
    let n = replace_chars(&p, &bs, &sl);
    let nl = n.len();
    let rel: Vec<char> = match find_from(&n, &src, 0) {
        Some(idx) => {
            proof {
                lemma_first_occurrence_found(n@, src@, 0);
            }
            let tail = crate::text::slice_of(&n, idx + 5, n.len());
            assert(tail@ =~= n@.skip(idx + 5));
            crate::text::trim_end_matches(&tail, &ext)
        },
        None => match file_stem(rcx_path) {
            Some(stem) => chars_of(stem.as_str()),
            None => {
                return None;
            },
        },
    };
    proof {
        reveal_strlit("/");
    }
    let root_file = is_text(&rel, "_") || rel.len() == 0;
    let namespace: Vec<char> = match root_module {
        Some(root) => if root_file {
            chars_of(root)
        } else {
            let mut ns = chars_of(root);
            append_str(&mut ns, "::");
            let tail = replace_chars(&rel, &sl, &dcolon);
            append_chars(&mut ns, &tail);
            ns
        },
        None => replace_chars(&rel, &sl, &dcolon),
    };
    let ns_string = string_of(&namespace);
    let hashed = hash_module_path(ns_string.as_str());
    let reg_name: Vec<char> = match root_module {
        Some(root) => if root_file {
            chars_of(root)
        } else {
            let pieces = crate::text::split_char(&rel, '/');
            crate::text::slice_of(&pieces[pieces.len() - 1], 0, pieces[pieces.len() - 1].len())
        },
        None => {
            let pieces = crate::text::split_char(&rel, '/');
            crate::text::slice_of(&pieces[pieces.len() - 1], 0, pieces[pieces.len() - 1].len())
        },
    };
    Some(
        ModuleNames {
            relative_path: string_of(&rel),
            namespace_path: ns_string,
            hashed_name: hashed,
            registry_name: string_of(&reg_name),
        },
    )
}

/// Registers the module whose source is `rcx_path` under its registry name,
/// with its namespace and hash.
pub fn register_module(
    rcx_path: &str,
    root_module: Option<&str>,
    registry: &mut ModuleRegistry,
) -> (r: Result<(), crate::error::RcppError>)
    requires
        relative_path_spec(rcx_path@) is Some,
    ensures
        r is Ok,
        ({
            let n = module_names_spec(rcx_path@, opt_str_view(root_module)).unwrap();
            final(registry)@ == old(registry)@.insert(
                n.3,
                ModuleInfoView { namespace: n.1, hash: n.2 },
            )
        }),
{
    let names = module_names(rcx_path, root_module).unwrap();
    registry.register(names.registry_name, names.namespace_path, names.hashed_name);
    Ok(())
}

/// Registers the module whose source is `rcx_path` where its relative path
/// can be found, and reports whether it could; otherwise the registry is
/// left as it was.
pub fn try_register_module(
    rcx_path: &str,
    root_module: Option<&str>,
    registry: &mut ModuleRegistry,
) -> (ok: bool)
    ensures
        ok == (relative_path_spec(rcx_path@) is Some),
        ok ==> ({
            let n = module_names_spec(rcx_path@, opt_str_view(root_module)).unwrap();
            final(registry)@ == old(registry)@.insert(
                n.3,
                ModuleInfoView { namespace: n.1, hash: n.2 },
            )
        }),
        !ok ==> final(registry)@ == old(registry)@,
{
    match module_names(rcx_path, None) {
        Some(_) => {
            let _ = register_module(rcx_path, root_module, registry);
            true
        },
        None => false,
    }
}


// ---------------------------------------------------------------------
// Generated files
// ---------------------------------------------------------------------

/// `#include "<header>"` for a `use` of `path`.
pub open spec fn include_line(
    path: Seq<char>,
    root: Option<Seq<char>>,
    reg: Map<Seq<char>, ModuleInfoView>,
    out_dir: Seq<char>,
) -> Seq<char> {
    "#include \""@ + include_path_spec(path, root, reg, out_dir) + "\""@
}

/// The `#include` lines of a list of `use` statements.
pub open spec fn include_lines(
    uses: Seq<UseView>,
    root: Option<Seq<char>>,
    reg: Map<Seq<char>, ModuleInfoView>,
    out_dir: Seq<char>,
) -> Seq<Seq<char>>
    decreases uses.len(),
{
    if uses.len() == 0 {
        seq![]
    } else {
        include_lines(uses.drop_last(), root, reg, out_dir).push(
            include_line(uses.last().path, root, reg, out_dir),
        )
    }
}

/// `#line <num> "<file>"`
pub open spec fn line_directive(num: usize, file: Seq<char>) -> Seq<char> {
    "#line "@ + decimal(num as nat) + " \""@ + file + "\""@
}

/// The translated lines of the interface block that its attributes keep;
/// `None` where a line cannot be translated.
pub open spec fn iface_body(lines: Seq<LineView>, ns: Seq<char>, cfg: Map<Seq<char>, Seq<char>>) -> Option<
    Seq<Seq<char>>,
>
    decreases lines.len(),
{
    if lines.len() == 0 {
        Some(seq![])
    } else {
        match iface_body(lines.drop_last(), ns, cfg) {
            Some(b) => {
                let t = translate_attrs_spec(lines.last().attrs, cfg);
                if !t.1 {
                    Some(b)
                } else {
                    match crate::rewrite::rcpp_syntax_spec(lines.last().content, ns) {
                        Some(c) => Some(b.push(t.0 + c)),
                        None => None,
                    }
                }
            },
            None => None,
        }
    }
}

/// The first lines of a header: where it comes from, `#pragma once`, the
/// includes of the `use` statements and an empty line.
pub open spec fn hpp_head(
    iface: InterfaceView,
    uses: Seq<UseView>,
    root: Option<Seq<char>>,
    reg: Map<Seq<char>, ModuleInfoView>,
    out_dir: Seq<char>,
) -> Seq<Seq<char>> {
    seq!["// Generated from "@ + iface.file, "#pragma once\n"@] + include_lines(
        uses,
        root,
        reg,
        out_dir,
    ) + seq![""@]
}

/// The lines of the header of a module: the head, and, unless the
/// interface's `cfg` attributes leave it out, the namespace with a `#line`
/// directive for the first interface line and the translated interface
/// lines. `None` where a line cannot be translated.
pub open spec fn hpp_spec(
    ns: Seq<char>,
    iface: InterfaceView,
    uses: Seq<UseView>,
    root: Option<Seq<char>>,
    reg: Map<Seq<char>, ModuleInfoView>,
    out_dir: Seq<char>,
    cfg: Map<Seq<char>, Seq<char>>,
) -> Option<Seq<Seq<char>>> {
    let head = hpp_head(iface, uses, root, reg, out_dir);
    if !translate_attrs_spec(iface.attrs, cfg).1 {
        Some(head)
    } else {
        let h2 = head.push("namespace "@ + ns + " {\n"@);
        let h3 = if iface.lines.len() > 0 {
            h2.push(line_directive(iface.lines[0].line_num, iface.lines[0].file))
        } else {
            h2
        };
        match iface_body(iface.lines, ns, cfg) {
            Some(b) => Some(h3 + b + seq!["\n} // namespace "@ + ns]),
            None => None,
        }
    }
}

/// The source map entry of a header: its first interface line, at the
/// line of the header that holds its `#line` directive.
pub open spec fn hpp_map_entries(
    hashed: Seq<char>,
    iface: InterfaceView,
    uses: Seq<UseView>,
    root: Option<Seq<char>>,
    reg: Map<Seq<char>, ModuleInfoView>,
    out_dir: Seq<char>,
    cfg: Map<Seq<char>, Seq<char>>,
) -> Seq<(Seq<char>, usize, Seq<char>, usize)> {
    if translate_attrs_spec(iface.attrs, cfg).1 && iface.lines.len() > 0 {
        seq![
            (
                iface.lines[0].file,
                iface.lines[0].line_num,
                hashed + ".hpp"@,
                (hpp_head(iface, uses, root, reg, out_dir).len() + 2) as usize,
            ),
        ]
    } else {
        seq![]
    }
}

/// Appends a line.
fn push_text(out: &mut Vec<Vec<char>>, l: Vec<char>)
    ensures
        views(final(out)@) == views(old(out)@).push(l@),
{
    let ghost old_v = views(out@);
    out.push(l);
    assert(views(out@) =~= old_v.push(l@));
}

/// `a` followed by `b`.
fn concat_text(a: &str, b: &str) -> (r: Vec<char>)
    ensures
        r@ == a@ + b@,
{
    let mut r = chars_of(a);
    append_str(&mut r, b);
    r
}

/// Appends the `#include` lines of `uses`.
fn push_include_lines(
    out: &mut Vec<Vec<char>>,
    uses: &[UseStatement],
    root_module: Option<&str>,
    registry: &ModuleRegistry,
    output_dir: &str,
)
    ensures
        views(final(out)@) == views(old(out)@) + include_lines(
            use_views(uses@),
            opt_str_view(root_module),
            registry@,
            output_dir@,
        ),
{
    let mut i: usize = 0;
    while i < uses.len()
        invariant
            i <= uses@.len(),
            views(out@) == views(old(out)@) + include_lines(
                use_views(uses@).take(i as int),
                opt_str_view(root_module),
                registry@,
                output_dir@,
            ),
        decreases uses@.len() - i,
    {
        assert(use_views(uses@).take(i + 1).drop_last() =~= use_views(uses@).take(i as int));
        let inc = resolve_include_hash(uses[i].path.as_str(), root_module, registry, output_dir);
        let mut l = chars_of("#include \"");
        append_str(&mut l, inc.as_str());
        append_str(&mut l, "\"");
        push_text(out, l);
        i = i + 1;
    }
    assert(use_views(uses@).take(i as int) =~= use_views(uses@));
}

/// Appends the `#line` directive for a line.
fn push_line_directive(out: &mut Vec<Vec<char>>, num: usize, file: &str)
    ensures
        views(final(out)@) == views(old(out)@).push(line_directive(num, file@)),
{
    let mut l = chars_of("#line ");
    push_decimal(&mut l, num);
    append_str(&mut l, " \"");
    append_str(&mut l, file);
    append_str(&mut l, "\"");
    push_text(out, l);
}

/// The translated interface lines.
fn iface_body_lines(lines: &Vec<Line>, namespace_path: &str, build_cfg: &StrMap<String>) -> (r: Result<
    Vec<Vec<char>>,
    crate::error::RcppError,
>)
    ensures
        r is Ok,
        match r {
            Ok(b) => iface_body(line_views(lines@), namespace_path@, cfg_view(*build_cfg)) == Some(
                views(b@),
            ),
            Err(_) => iface_body(line_views(lines@), namespace_path@, cfg_view(*build_cfg)) is None,
        },
{
    let mut body: Vec<Vec<char>> = Vec::new();
    let mut i: usize = 0;
    while i < lines.len()
        invariant
            i <= lines@.len(),
            iface_body(line_views(lines@).take(i as int), namespace_path@, cfg_view(*build_cfg))
                == Some(views(body@)),
        decreases lines@.len() - i,
    {
        assert(line_views(lines@).take(i + 1).drop_last() =~= line_views(lines@).take(i as int));
        let line = &lines[i];
        let (l_attr, l_inc) = translate_attrs(line.attrs.as_slice(), build_cfg);
        if l_inc {
            let content = match crate::rewrite::apply_rcpp_syntax(
                line.content.as_str(),
                namespace_path,
            ) {
                Ok(c) => c,
                Err(e) => {
                    proof {
                        lemma_iface_body_none(
                            line_views(lines@),
                            namespace_path@,
                            cfg_view(*build_cfg),
                            i + 1,
                        );
                    }
                    return Err(e);
                },
            };
            let mut l = chars_of(l_attr.as_str());
            append_str(&mut l, content.as_str());
            push_text(&mut body, l);
        }
        i = i + 1;
    }
    assert(line_views(lines@).take(i as int) =~= line_views(lines@));
    Ok(body)
}

proof fn lemma_iface_body_none(
    lines: Seq<LineView>,
    ns: Seq<char>,
    cfg: Map<Seq<char>, Seq<char>>,
    k: int,
)
    requires
        0 <= k <= lines.len(),
        iface_body(lines.take(k), ns, cfg) is None,
    ensures
        iface_body(lines, ns, cfg) is None,
    decreases lines.len() - k,
{
    if k < lines.len() {
        assert(lines.take(k + 1).drop_last() =~= lines.take(k));
        lemma_iface_body_none(lines, ns, cfg, k + 1);
    } else {
        assert(lines.take(k) =~= lines);
    }
}

/// Appends all of `body`.
fn append_lines(out: &mut Vec<Vec<char>>, body: &Vec<Vec<char>>)
    ensures
        views(final(out)@) == views(old(out)@) + views(body@),
{
    let mut i: usize = 0;
    while i < body.len()
        invariant
            i <= body@.len(),
            views(out@) == views(old(out)@) + views(body@).take(i as int),
        decreases body@.len() - i,
    {
        let l = crate::text::slice_of(&body[i], 0, body[i].len());
        assert(l@ =~= views(body@)[i as int]);
        push_text(out, l);
        i = i + 1;
        assert(views(out@) =~= views(old(out)@) + views(body@).take(i as int));
    }
    assert(views(body@).take(i as int) =~= views(body@));
}

/// The head lines of a header.
fn hpp_head_lines(
    interface: &InterfaceBlock,
    uses: &[UseStatement],
    root_module: Option<&str>,
    registry: &ModuleRegistry,
    output_dir: &str,
) -> (out: Vec<Vec<char>>)
    ensures
        views(out@) == hpp_head(
            interface@,
            use_views(uses@),
            opt_str_view(root_module),
            registry@,
            output_dir@,
        ),
{
    let mut out: Vec<Vec<char>> = Vec::new();
    push_text(&mut out, concat_text("// Generated from ", interface.file.as_str()));
    push_text(&mut out, chars_of("#pragma once\n"));
    push_include_lines(&mut out, uses, root_module, registry, output_dir);
    push_text(&mut out, chars_of(""));
    assert(views(out@) =~= hpp_head(
        interface@,
        use_views(uses@),
        opt_str_view(root_module),
        registry@,
        output_dir@,
    ));
    out
}

/// Generates the header of a module from its interface block: the includes
/// of its `use` statements and, unless a `cfg` attribute of the block leaves
/// it out, the translated interface lines in the module's namespace.
/// Records where the first interface line lands in `sm`. It always
/// succeeds, as the syntax translation of each line does.
pub fn generate_hpp(
    namespace_path: &str,
    hashed_name: &str,
    interface: &InterfaceBlock,
    uses: &[UseStatement],
    root_module: Option<&str>,
    registry: &ModuleRegistry,
    output_dir: &str,
    sm: &mut SourceMap,
    build_cfg: &StrMap<String>,
) -> (r: Result<String, crate::error::RcppError>)
    ensures
        r is Ok,
        final(sm)@ == old(sm)@ + hpp_map_entries(
            hashed_name@,
            interface@,
            use_views(uses@),
            opt_str_view(root_module),
            registry@,
            output_dir@,
            cfg_view(*build_cfg),
        ),
        match r {
            Ok(t) => hpp_spec(
                namespace_path@,
                interface@,
                use_views(uses@),
                opt_str_view(root_module),
                registry@,
                output_dir@,
                cfg_view(*build_cfg),
            ) matches Some(ls) && t@ == join_spec(ls, "\n"@),
            Err(_) => hpp_spec(
                namespace_path@,
                interface@,
                use_views(uses@),
                opt_str_view(root_module),
                registry@,
                output_dir@,
                cfg_view(*build_cfg),
            ) is None,
        },
{
    let mut out = hpp_head_lines(interface, uses, root_module, registry, output_dir);
    let ghost head = views(out@);
    let nl = chars_of("\n");
    let (_attr_str, keep) = translate_attrs(interface.attrs.as_slice(), build_cfg);
    if !keep {
        assert(old(sm)@ + Seq::<(Seq<char>, usize, Seq<char>, usize)>::empty() =~= old(sm)@);
        return Ok(string_of(&join_chars(&out, &nl)));
    }
    let mut ns_line = concat_text("namespace ", namespace_path);
    append_str(&mut ns_line, " {\n");
    push_text(&mut out, ns_line);
    if interface.lines.len() > 0 {
        let first = &interface.lines[0];
        push_line_directive(&mut out, first.line_num, first.file.as_str());
        let dst = concat_text(hashed_name, ".hpp");
        assert(line_views(interface.lines@)[0] == first@);
        assert(views(out@).len() == head.len() + 2);
        assert(views(out@).len() == out@.len());
        sm.add(first.file.as_str(), first.line_num, string_of(&dst).as_str(), out.len());
        assert(sm@ =~= old(sm)@ + hpp_map_entries(
            hashed_name@,
            interface@,
            use_views(uses@),
            opt_str_view(root_module),
            registry@,
            output_dir@,
            cfg_view(*build_cfg),
        ));
    } else {
        assert(old(sm)@ + Seq::<(Seq<char>, usize, Seq<char>, usize)>::empty() =~= old(sm)@);
    }
    let body = iface_body_lines(&interface.lines, namespace_path, build_cfg)?;
    let ghost h3 = views(out@);
    append_lines(&mut out, &body);
    let end_line = concat_text("\n} // namespace ", namespace_path);
    push_text(&mut out, end_line);
    assert(views(out@) =~= h3 + views(body@) + seq!["\n} // namespace "@ + namespace_path@]);
    Ok(string_of(&join_chars(&out, &nl)))
}


/// The `using` lines for a `use` with the given items of the resolved path:
/// `using namespace <path>;` for `*`, otherwise `using <path>::<item>;` per
/// item.
pub open spec fn using_lines(items: Seq<Seq<char>>, resolved: Seq<char>) -> Seq<Seq<char>> {
    if items == seq!["*"@] {
        seq!["using namespace "@ + resolved + ";"@]
    } else {
        items.map_values(|it: Seq<char>| "using "@ + resolved + "::"@ + it + ";"@)
    }
}

/// The `#include` and `using` lines of a list of `use` statements.
pub open spec fn use_lines(
    uses: Seq<UseView>,
    root: Option<Seq<char>>,
    reg: Map<Seq<char>, ModuleInfoView>,
    out_dir: Seq<char>,
) -> Seq<Seq<char>>
    decreases uses.len(),
{
    if uses.len() == 0 {
        seq![]
    } else {
        use_lines(uses.drop_last(), root, reg, out_dir) + seq![
            include_line(uses.last().path, root, reg, out_dir),
        ] + using_lines(uses.last().items, resolve_namespace_spec(uses.last().path, root))
    }
}

/// The `using` lines of a `use` statement name the namespace that its glob
/// form opens, whatever its items: `use p::*;` gives its include and
/// `using namespace N;`, and `use p::I;` (or any items other than the glob)
/// gives the same include and `using N::I;` for each item in order, where
/// `N` is the path `p` resolved under the root module.
pub proof fn law_using_lines_share_namespace(
    u: UseView,
    root: Option<Seq<char>>,
    reg: Map<Seq<char>, ModuleInfoView>,
    out_dir: Seq<char>,
)
    ensures
        ({
            let n = resolve_namespace_spec(u.path, root);
            let inc = include_line(u.path, root, reg, out_dir);
            let g = UseView { items: seq!["*"@], ..u };
            &&& use_lines(seq![g], root, reg, out_dir) == seq![inc, "using namespace "@ + n + ";"@]
            &&& u.items != seq!["*"@] ==> use_lines(seq![u], root, reg, out_dir) == seq![inc]
                + u.items.map_values(|it: Seq<char>| "using "@ + n + "::"@ + it + ";"@)
        }),
{
    let g = UseView { items: seq!["*"@], ..u };
    let n = resolve_namespace_spec(u.path, root);
    let inc = include_line(u.path, root, reg, out_dir);
    let sg = seq![g];
    let su = seq![u];
    assert(sg.drop_last() =~= Seq::<UseView>::empty());
    assert(su.drop_last() =~= Seq::<UseView>::empty());
    assert(use_lines(Seq::<UseView>::empty(), root, reg, out_dir) == Seq::<Seq<char>>::empty());
    assert(use_lines(sg, root, reg, out_dir) == seq![inc] + using_lines(g.items, n));
    assert(using_lines(g.items, n) == seq!["using namespace "@ + n + ";"@]);
    assert(seq![inc] + seq!["using namespace "@ + n + ";"@] =~= seq![
        inc,
        "using namespace "@ + n + ";"@,
    ]);
    if u.items != seq!["*"@] {
        assert(use_lines(su, root, reg, out_dir) == seq![inc] + using_lines(u.items, n));
    }
}

/// The first lines of a source file: where it comes from, the include of
/// its own header, the includes and `using` lines of its `use` statements,
/// an empty line and the opening of its namespace.
pub open spec fn cpp_head(
    ns: Seq<char>,
    hashed: Seq<char>,
    uses: Seq<UseView>,
    root: Option<Seq<char>>,
    reg: Map<Seq<char>, ModuleInfoView>,
    out_dir: Seq<char>,
) -> Seq<Seq<char>> {
    seq![
        "// Generated from "@ + ns + ".rcx"@,
        "#include \""@ + join_path(out_dir, hashed + ".hpp"@) + "\"\n"@,
    ] + use_lines(uses, root, reg, out_dir) + seq![""@, "namespace "@ + ns + " {\n"@]
}

/// The progress of the source file's body: its lines so far, the source
/// map entries added, whether the `#line` directive was written, and
/// whether every line so far could be translated.
#[verifier::ext_equal]
pub struct CppScan {
    pub out: Seq<Seq<char>>,
    pub sm: Seq<(Seq<char>, usize, Seq<char>, usize)>,
    pub marked: bool,
    pub ok: bool,
}

/// The body of a source file after `lines`, starting from the lines
/// `head`: each line that its attributes keep is translated; before the
/// first kept line with content, a `#line` directive is written and its
/// position recorded. Translation stops at the first line that fails.
pub open spec fn cpp_scan(
    lines: Seq<LineView>,
    ns: Seq<char>,
    hashed: Seq<char>,
    cfg: Map<Seq<char>, Seq<char>>,
    head: Seq<Seq<char>>,
) -> CppScan
    decreases lines.len(),
{
    if lines.len() == 0 {
        CppScan { out: head, sm: seq![], marked: false, ok: true }
    } else {
        let st = cpp_scan(lines.drop_last(), ns, hashed, cfg, head);
        let l = lines.last();
        let t = translate_attrs_spec(l.attrs, cfg);
        if !st.ok || !t.1 {
            st
        } else {
            let mark = !st.marked && trim_spec(l.content).len() > 0;
            let out1 = if mark {
                st.out.push(line_directive(l.line_num, l.file))
            } else {
                st.out
            };
            let sm1 = if mark {
                st.sm.push((l.file, l.line_num, hashed + ".cpp"@, out1.len() as usize))
            } else {
                st.sm
            };
            match crate::rewrite::rcpp_syntax_spec(l.content, ns) {
                Some(c) => CppScan { out: out1.push(t.0 + c), sm: sm1, marked: st.marked || mark, ok: true },
                None => CppScan { out: out1, sm: sm1, marked: st.marked || mark, ok: false },
            }
        }
    }
}

proof fn lemma_cpp_scan_stops(
    lines: Seq<LineView>,
    ns: Seq<char>,
    hashed: Seq<char>,
    cfg: Map<Seq<char>, Seq<char>>,
    head: Seq<Seq<char>>,
    k: int,
)
    requires
        0 <= k <= lines.len(),
        !cpp_scan(lines.take(k), ns, hashed, cfg, head).ok,
    ensures
        cpp_scan(lines, ns, hashed, cfg, head) == cpp_scan(lines.take(k), ns, hashed, cfg, head),
    decreases lines.len() - k,
{
    if k < lines.len() {
        assert(lines.take(k + 1).drop_last() =~= lines.take(k));
        lemma_cpp_scan_stops(lines, ns, hashed, cfg, head, k + 1);
    } else {
        assert(lines.take(k) =~= lines);
    }
}

/// The `#include` and `using` lines of `uses`, appended.
fn push_use_lines(
    out: &mut Vec<Vec<char>>,
    uses: &[UseStatement],
    root_module: Option<&str>,
    registry: &ModuleRegistry,
    output_dir: &str,
)
    ensures
        views(final(out)@) == views(old(out)@) + use_lines(
            use_views(uses@),
            opt_str_view(root_module),
            registry@,
            output_dir@,
        ),
{
    let mut i: usize = 0;
    while i < uses.len()
        invariant
            i <= uses@.len(),
            views(out@) == views(old(out)@) + use_lines(
                use_views(uses@).take(i as int),
                opt_str_view(root_module),
                registry@,
                output_dir@,
            ),
        decreases uses@.len() - i,
    {
        assert(use_views(uses@).take(i + 1).drop_last() =~= use_views(uses@).take(i as int));
        let u = &uses[i];
        let ghost before = views(out@);
        let inc = resolve_include_hash(u.path.as_str(), root_module, registry, output_dir);
        let mut l = chars_of("#include \"");
        append_str(&mut l, inc.as_str());
        append_str(&mut l, "\"");
        push_text(out, l);
        let resolved = resolve_namespace_path(u.path.as_str(), root_module);
        let ghost mid = views(out@);
        let star = u.items.len() == 1 && same_text(u.items[0].as_str(), "*");
        assert(star == (u@.items == seq!["*"@])) by {
            if u@.items =~= seq!["*"@] {
                assert(u.items@.len() == 1);
                assert(u@.items[0] == u.items@[0]@);
            }
            if star {
                assert(u@.items =~= seq!["*"@]);
            }
        }
        if star {
            let mut l2 = concat_text("using namespace ", resolved.as_str());
            append_str(&mut l2, ";");
            push_text(out, l2);
        } else {
            let mut j: usize = 0;
            while j < u.items.len()
                invariant
                    j <= u.items@.len(),
                    u@.items != seq!["*"@],
                    views(out@) == mid + using_lines(u@.items, resolved@).take(j as int),
                decreases u.items@.len() - j,
            {
                let mut l2 = concat_text("using ", resolved.as_str());
                append_str(&mut l2, "::");
                append_str(&mut l2, u.items[j].as_str());
                append_str(&mut l2, ";");
                push_text(out, l2);
                j = j + 1;
                assert(views(out@) =~= mid + using_lines(u@.items, resolved@).take(j as int));
            }
            assert(using_lines(u@.items, resolved@).take(j as int) =~= using_lines(
                u@.items,
                resolved@,
            ));
        }
        assert(views(out@) =~= before + seq![
            include_line(u@.path, opt_str_view(root_module), registry@, output_dir@),
        ] + using_lines(u@.items, resolve_namespace_spec(u@.path, opt_str_view(root_module))));
        i = i + 1;
    }
    assert(use_views(uses@).take(i as int) =~= use_views(uses@));
}

/// The head lines of a source file.
fn cpp_head_lines(
    namespace_path: &str,
    hashed_name: &str,
    uses: &[UseStatement],
    root_module: Option<&str>,
    registry: &ModuleRegistry,
    output_dir: &str,
) -> (out: Vec<Vec<char>>)
    ensures
        views(out@) == cpp_head(
            namespace_path@,
            hashed_name@,
            use_views(uses@),
            opt_str_view(root_module),
            registry@,
            output_dir@,
        ),
{
    let mut out: Vec<Vec<char>> = Vec::new();
    let mut l1 = concat_text("// Generated from ", namespace_path);
    append_str(&mut l1, ".rcx");
    push_text(&mut out, l1);
    let own = join_path_text(&chars_of(output_dir), &concat_text(hashed_name, ".hpp"));
    let mut l2 = chars_of("#include \"");
    append_chars(&mut l2, &own);
    append_str(&mut l2, "\"\n");
    push_text(&mut out, l2);
    push_use_lines(&mut out, uses, root_module, registry, output_dir);
    push_text(&mut out, chars_of(""));
    let mut l3 = concat_text("namespace ", namespace_path);
    append_str(&mut l3, " {\n");
    push_text(&mut out, l3);
    assert(views(out@) =~= cpp_head(
        namespace_path@,
        hashed_name@,
        use_views(uses@),
        opt_str_view(root_module),
        registry@,
        output_dir@,
    ));
    out
}

/// Appends the body lines of a source file.
fn push_cpp_body(
    out: &mut Vec<Vec<char>>,
    lines: &Vec<Line>,
    namespace_path: &str,
    hashed_name: &str,
    build_cfg: &StrMap<String>,
    sm: &mut SourceMap,
) -> (r: Result<(), crate::error::RcppError>)
    ensures
        r is Ok,
        ({
            let sc = cpp_scan(
                line_views(lines@),
                namespace_path@,
                hashed_name@,
                cfg_view(*build_cfg),
                views(old(out)@),
            );
            &&& final(sm)@ == old(sm)@ + sc.sm
            &&& r is Ok <==> sc.ok
            &&& r is Ok ==> views(final(out)@) == sc.out
        }),
{
    let ghost head = views(out@);
    assert(head == views(old(out)@));
    let dst = string_of(&concat_text(hashed_name, ".cpp"));
    let mut marked = false;
    let mut i: usize = 0;
    assert(old(sm)@ + Seq::<(Seq<char>, usize, Seq<char>, usize)>::empty() =~= old(sm)@);
    while i < lines.len()
        invariant
            i <= lines@.len(),
            dst@ == hashed_name@ + ".cpp"@,
            head == views(old(out)@),
            ({
                let sc = cpp_scan(
                    line_views(lines@).take(i as int),
                    namespace_path@,
                    hashed_name@,
                    cfg_view(*build_cfg),
                    head,
                );
                &&& sc.ok
                &&& sc.out == views(out@)
                &&& sm@ == old(sm)@ + sc.sm
                &&& sc.marked == marked
            }),
        decreases lines@.len() - i,
    {
        assert(line_views(lines@).take(i + 1).drop_last() =~= line_views(lines@).take(i as int));
        let ghost sc0 = cpp_scan(
            line_views(lines@).take(i as int),
            namespace_path@,
            hashed_name@,
            cfg_view(*build_cfg),
            head,
        );
        let line = &lines[i];
        assert(line_views(lines@).take(i + 1).last() == line@);
        let (l_attr, l_inc) = translate_attrs(line.attrs.as_slice(), build_cfg);
        if l_inc {
            let content_chars = chars_of(line.content.as_str());
            if !marked && trim(&content_chars).len() > 0 {
                push_line_directive(out, line.line_num, line.file.as_str());
                let ghost sm_before = sm@;
                sm.add(line.file.as_str(), line.line_num, dst.as_str(), out.len());
                assert(views(out@).len() == out@.len());
                assert(sm@ =~= old(sm)@ + sc0.sm.push(
                    (line@.file, line@.line_num, hashed_name@ + ".cpp"@, views(out@).len() as usize),
                ));
                marked = true;
            }
            match crate::rewrite::apply_rcpp_syntax(line.content.as_str(), namespace_path) {
                Ok(c) => {
                    let mut l = chars_of(l_attr.as_str());
                    append_str(&mut l, c.as_str());
                    push_text(out, l);
                },
                Err(e) => {
                    proof {
                        let sc1 = cpp_scan(
                            line_views(lines@).take(i + 1),
                            namespace_path@,
                            hashed_name@,
                            cfg_view(*build_cfg),
                            head,
                        );
                        assert(!sc1.ok);
                        assert(sm@ == old(sm)@ + sc1.sm);
                        lemma_cpp_scan_stops(
                            line_views(lines@),
                            namespace_path@,
                            hashed_name@,
                            cfg_view(*build_cfg),
                            head,
                            i + 1,
                        );
                        assert(cpp_scan(
                            line_views(lines@),
                            namespace_path@,
                            hashed_name@,
                            cfg_view(*build_cfg),
                            views(old(out)@),
                        ) == sc1);
                    }
                    return Err(e);
                },
            }
        }
        i = i + 1;
    }
    assert(line_views(lines@).take(i as int) =~= line_views(lines@));
    Ok(())
}

/// Generates the source file of a module: the include of its own header,
/// the includes and `using` lines of its `use` statements, and the
/// translated lines that their attributes keep, in the module's namespace.
/// Records where the first kept line with content lands in `sm`. It always
/// succeeds, as the syntax translation of each line does.
pub fn generate_cpp(
    namespace_path: &str,
    hashed_name: &str,
    rest: &RestCode,
    uses: &[UseStatement],
    root_module: Option<&str>,
    registry: &ModuleRegistry,
    output_dir: &str,
    sm: &mut SourceMap,
    build_cfg: &StrMap<String>,
) -> (r: Result<String, crate::error::RcppError>)
    ensures
        r is Ok,
        ({
            let head = cpp_head(
                namespace_path@,
                hashed_name@,
                use_views(uses@),
                opt_str_view(root_module),
                registry@,
                output_dir@,
            );
            let sc = cpp_scan(rest@, namespace_path@, hashed_name@, cfg_view(*build_cfg), head);
            &&& final(sm)@ == old(sm)@ + sc.sm
            &&& r is Ok <==> sc.ok
            &&& r matches Ok(t) ==> t@ == join_spec(
                sc.out.push("\n} // namespace "@ + namespace_path@),
                "\n"@,
            )
        }),
{
    let mut out = cpp_head_lines(namespace_path, hashed_name, uses, root_module, registry, output_dir);
    push_cpp_body(&mut out, &rest.lines, namespace_path, hashed_name, build_cfg, sm)?;
    push_text(&mut out, concat_text("\n} // namespace ", namespace_path));
    let nl = chars_of("\n");
    Ok(string_of(&join_chars(&out, &nl)))
}


// ---------------------------------------------------------------------
// Whole modules
// ---------------------------------------------------------------------

/// The path that an `extern mod` declaration resolves to: the one given on
/// the command line for its name, else its inline path.
pub open spec fn extern_path_spec(ext: ExternView, cli: Map<Seq<char>, Seq<char>>) -> Option<Seq<char>> {
    if cli.contains_key(ext.name) {
        Some(cli[ext.name])
    } else {
        ext.inline_path
    }
}

/// Resolves the path of an `extern mod` declaration; fails where it has
/// none, naming the module.
pub fn resolve_extern_path(ext: &ExternMod, cli_externs: &StrMap<String>) -> (r: Result<
    String,
    crate::error::RcppError,
>)
    ensures
        match r {
            Ok(p) => extern_path_spec(ext@, cfg_view(*cli_externs)) == Some(p@),
            Err(e) => extern_path_spec(ext@, cfg_view(*cli_externs)) is None && (e
                matches crate::error::RcppError::ExternWithoutPath { name } && name@ == ext@.name),
        },
{
    match cli_externs.get(ext.name.as_str()) {
        Some(p) => Ok(copy_string(p)),
        None => match &ext.inline_path {
            Some(p) => Ok(copy_string(p)),
            None => Err(crate::error::RcppError::ExternWithoutPath { name: copy_string(&ext.name) }),
        },
    }
}

/// Where the existence of a resolved external module is checked: its `src`
/// directory when the path is a directory, else the path itself.
pub fn extern_check_target(resolved: &str, is_dir: bool) -> (r: String)
    ensures
        r@ == (if is_dir {
            resolved@ + "/src"@
        } else {
            resolved@
        }),
{
    if is_dir {
        string_of(&concat_text(resolved, "/src"))
    } else {
        string_of(&chars_of(resolved))
    }
}

/// The names a module depends on: its external modules, then the last `::`
/// piece of each `use` path.
pub open spec fn dependencies_spec(externs: Seq<ExternView>, uses: Seq<UseView>) -> Seq<Seq<char>> {
    externs.map_values(|e: ExternView| e.name) + uses.map_values(
        |u: UseView| last_piece(u.path, "::"@),
    )
}

/// The dependency list: the hash of each dependency that is registered,
/// one per line.
pub open spec fn lst_spec(deps: Seq<Seq<char>>, reg: Map<Seq<char>, ModuleInfoView>) -> Seq<char>
    decreases deps.len(),
{
    if deps.len() == 0 {
        seq![]
    } else {
        lst_spec(deps.drop_last(), reg) + if reg.contains_key(deps.last()) {
            reg[deps.last()].hash + "\n"@
        } else {
            seq![]
        }
    }
}

/// The header of a module without an interface block.
pub open spec fn empty_hpp_lines(
    ns: Seq<char>,
    uses: Seq<UseView>,
    root: Option<Seq<char>>,
    reg: Map<Seq<char>, ModuleInfoView>,
    out_dir: Seq<char>,
) -> Seq<Seq<char>> {
    seq!["// Generated from "@ + ns + ".rcx"@, "#pragma once\n"@] + include_lines(
        uses,
        root,
        reg,
        out_dir,
    ) + seq![""@, "namespace "@ + ns + " {"@, "} // namespace "@ + ns]
}

/// The text files of one module.
pub struct ModuleFiles {
    pub hpp: String,
    pub cpp: String,
    pub csv: String,
    pub lst: String,
}

/// The header text and its source map entries.
pub open spec fn module_hpp_spec(
    names: (Seq<char>, Seq<char>, Seq<char>, Seq<char>),
    uses: Seq<UseView>,
    iface: Option<InterfaceView>,
    root: Option<Seq<char>>,
    reg: Map<Seq<char>, ModuleInfoView>,
    out_dir: Seq<char>,
    cfg: Map<Seq<char>, Seq<char>>,
) -> (Option<Seq<char>>, Seq<(Seq<char>, usize, Seq<char>, usize)>) {
    match iface {
        Some(i) => (
            match hpp_spec(names.1, i, uses, root, reg, out_dir, cfg) {
                Some(ls) => Some(join_spec(ls, "\n"@)),
                None => None,
            },
            hpp_map_entries(names.2, i, uses, root, reg, out_dir, cfg),
        ),
        None => (Some(join_spec(empty_hpp_lines(names.1, uses, root, reg, out_dir), "\n"@)), seq![]),
    }
}

/// The four text files of a module from its parsed parts: the header, the
/// source file, the source map as CSV and the list of the hashes of its
/// registered dependencies; `None` where a line cannot be translated.
pub open spec fn module_files_spec(
    names: (Seq<char>, Seq<char>, Seq<char>, Seq<char>),
    uses: Seq<UseView>,
    externs: Seq<ExternView>,
    iface: Option<InterfaceView>,
    rest: Seq<LineView>,
    root: Option<Seq<char>>,
    reg: Map<Seq<char>, ModuleInfoView>,
    out_dir: Seq<char>,
    cfg: Map<Seq<char>, Seq<char>>,
) -> Option<(Seq<char>, Seq<char>, Seq<char>, Seq<char>)> {
    let h = module_hpp_spec(names, uses, iface, root, reg, out_dir, cfg);
    let sc = cpp_scan(rest, names.1, names.2, cfg, cpp_head(names.1, names.2, uses, root, reg, out_dir));
    if h.0 is Some && sc.ok {
        Some(
            (
                h.0.unwrap(),
                join_spec(sc.out.push("\n} // namespace "@ + names.1), "\n"@),
                csv_header() + csv_rows(h.1 + sc.sm),
                lst_spec(dependencies_spec(externs, uses), reg),
            ),
        )
    } else {
        None
    }
}

/// The header of a module without an interface block.
fn empty_hpp(
    namespace_path: &str,
    uses: &[UseStatement],
    root_module: Option<&str>,
    registry: &ModuleRegistry,
    output_dir: &str,
) -> (r: String)
    ensures
        r@ == join_spec(
            empty_hpp_lines(
                namespace_path@,
                use_views(uses@),
                opt_str_view(root_module),
                registry@,
                output_dir@,
            ),
            "\n"@,
        ),
{
    let mut out: Vec<Vec<char>> = Vec::new();
    let mut l1 = concat_text("// Generated from ", namespace_path);
    append_str(&mut l1, ".rcx");
    push_text(&mut out, l1);
    push_text(&mut out, chars_of("#pragma once\n"));
    push_include_lines(&mut out, uses, root_module, registry, output_dir);
    push_text(&mut out, chars_of(""));
    let mut l2 = concat_text("namespace ", namespace_path);
    append_str(&mut l2, " {");
    push_text(&mut out, l2);
    push_text(&mut out, concat_text("} // namespace ", namespace_path));
    assert(views(out@) =~= empty_hpp_lines(
        namespace_path@,
        use_views(uses@),
        opt_str_view(root_module),
        registry@,
        output_dir@,
    ));
    string_of(&join_chars(&out, &chars_of("\n")))
}

/// The dependency list of a module.
fn dependency_list(
    externs: &Vec<ExternMod>,
    uses: &Vec<UseStatement>,
    registry: &ModuleRegistry,
) -> (r: String)
    ensures
        r@ == lst_spec(dependencies_spec(extern_views(externs@), use_views(uses@)), registry@),
{
    let mut deps: Vec<Vec<char>> = Vec::new();
    let mut i: usize = 0;
    while i < externs.len()
        invariant
            i <= externs@.len(),
            views(deps@) == extern_views(externs@).map_values(|e: ExternView| e.name).take(i as int),
        decreases externs@.len() - i,
    {
        push_text(&mut deps, chars_of(externs[i].name.as_str()));
        i = i + 1;
        assert(views(deps@) =~= extern_views(externs@).map_values(|e: ExternView| e.name).take(
            i as int,
        ));
    }
    let ghost d1 = views(deps@);
    let sep = chars_of("::");
    proof {
        reveal_strlit("::");
    }
    let mut j: usize = 0;
    while j < uses.len()
        invariant
            j <= uses@.len(),
            sep@ == "::"@,
            sep@.len() > 0,
            views(deps@) == d1 + use_views(uses@).map_values(
                |u: UseView| last_piece(u.path, "::"@),
            ).take(j as int),
        decreases uses@.len() - j,
    {
        let p = chars_of(uses[j].path.as_str());
        push_text(&mut deps, last_piece_text(&p, &sep));
        j = j + 1;
        assert(views(deps@) =~= d1 + use_views(uses@).map_values(
            |u: UseView| last_piece(u.path, "::"@),
        ).take(j as int));
    }
    assert(views(deps@) =~= dependencies_spec(extern_views(externs@), use_views(uses@)));
    let mut out: Vec<char> = Vec::new();
    let mut k: usize = 0;
    while k < deps.len()
        invariant
            k <= deps@.len(),
            out@ == lst_spec(views(deps@).take(k as int), registry@),
        decreases deps@.len() - k,
    {
        assert(views(deps@).take(k + 1).drop_last() =~= views(deps@).take(k as int));
        let name = string_of(&deps[k]);
        let ghost before = out@;
        match registry.get(name.as_str()) {
            Some(info) => {
                append_str(&mut out, info.hash.as_str());
                append_str(&mut out, "\n");
            },
            None => {},
        }
        k = k + 1;
        assert(out@ =~= lst_spec(views(deps@).take(k as int), registry@));
    }
    assert(views(deps@).take(k as int) =~= views(deps@));
    string_of(&out)
}

/// The text files of one module from its parsed parts: its header (from
/// its interface block, or an empty one), its source file, the source map
/// of both as CSV, and the hashes of its registered dependencies. It always
/// succeeds, as the syntax translation of each line does.
pub fn generate_module_text(
    names: &ModuleNames,
    uses: &Vec<UseStatement>,
    externs: &Vec<ExternMod>,
    interface: &Option<InterfaceBlock>,
    rest: &RestCode,
    output_dir: &str,
    root_module: Option<&str>,
    build_cfg: &StrMap<String>,
    registry: &ModuleRegistry,
) -> (r: Result<ModuleFiles, crate::error::RcppError>)
    ensures
        r is Ok,
        match r {
            Ok(f) => module_files_spec(
                names_view(*names),
                use_views(uses@),
                extern_views(externs@),
                opt_iface_view(*interface),
                rest@,
                opt_str_view(root_module),
                registry@,
                output_dir@,
                cfg_view(*build_cfg),
            ) == Some((f.hpp@, f.cpp@, f.csv@, f.lst@)),
            Err(_) => module_files_spec(
                names_view(*names),
                use_views(uses@),
                extern_views(externs@),
                opt_iface_view(*interface),
                rest@,
                opt_str_view(root_module),
                registry@,
                output_dir@,
                cfg_view(*build_cfg),
            ) is None,
        },
{
    let mut sm = SourceMap::new();
    let ns = names.namespace_path.as_str();
    let hashed = names.hashed_name.as_str();
    let hpp = match interface {
        Some(i) => generate_hpp(
            ns,
            hashed,
            i,
            uses.as_slice(),
            root_module,
            registry,
            output_dir,
            &mut sm,
            build_cfg,
        )?,
        None => empty_hpp(ns, uses.as_slice(), root_module, registry, output_dir),
    };
    let ghost sm1 = sm@;
    let cpp = generate_cpp(
        ns,
        hashed,
        rest,
        uses.as_slice(),
        root_module,
        registry,
        output_dir,
        &mut sm,
        build_cfg,
    )?;
    let csv = sm.to_csv();
    let lst = dependency_list(externs, uses, registry);
    assert(sm1 =~= Seq::<(Seq<char>, usize, Seq<char>, usize)>::empty() + sm1);
    Ok(ModuleFiles { hpp, cpp, csv, lst })
}

} // verus!
