//! The command line's own rules: `-e name,path` arguments, `--cfg`
//! settings and the progress percentages of a build.
use vstd::prelude::*;
use crate::codegen::cfg_view;
use crate::parser::strip_both;
use crate::strmap::StrMap;
use crate::text::{
    char_end, chars_of, find_char, lemma_char_end_bounds, slice_of, string_of, trim,
    trim_end_matches, trim_spec, trim_start_matches,
};

verus! {

/// The separator of an `-e` argument: `=` where there is one, else `,`.
pub open spec fn extern_arg_sep(s: Seq<char>) -> char {
    if char_end(s, 0, '=') < s.len() {
        '='
    } else {
        ','
    }
}

/// What an `-e` argument gives: the trimmed texts before and after the
/// first separator, or the error message where there is no separator.
pub open spec fn parse_extern_arg_spec(s: Seq<char>) -> Result<(Seq<char>, Seq<char>), Seq<char>> {
    let k = char_end(s, 0, extern_arg_sep(s));
    if k < s.len() {
        Ok((trim_spec(s.take(k)), trim_spec(s.skip(k + 1))))
    } else {
        Err("Extern format must be 'name,path' or 'name=path'"@)
    }
}

/// Reads an `-e` argument `name,path` or `name=path`.
pub fn parse_extern_arg(s: &str) -> (r: Result<(String, String), String>)
    ensures
        match r {
            Ok((n, p)) => parse_extern_arg_spec(s@) == Ok::<(Seq<char>, Seq<char>), Seq<char>>(
                (n@, p@),
            ),
            Err(m) => parse_extern_arg_spec(s@) == Err::<(Seq<char>, Seq<char>), Seq<char>>(m@),
        },
{
    let v = chars_of(s);
    let eq = find_char(&v, '=');
    let sep = if eq < v.len() {
        '='
    } else {
        ','
    };
    let k = find_char(&v, sep);
    proof {
        lemma_char_end_bounds(v@, 0, sep);
    }
    if k < v.len() {
        let name = trim(&slice_of(&v, 0, k));
        let path = trim(&slice_of(&v, k + 1, v.len()));
        assert(v@.take(k as int) =~= v@.subrange(0, k as int));
        assert(v@.skip(k + 1) =~= v@.subrange(k + 1, v@.len() as int));
        Ok((string_of(&name), string_of(&path)))
    } else {
        Err(string_of(&chars_of("Extern format must be 'name,path' or 'name=path'")))
    }
}

/// The setting of one `--cfg` item: `key=value` (the value without
/// surrounding double quotes) or a bare `key`, which stands for `key=true`.
pub open spec fn cfg_item_spec(item: Seq<char>) -> (Seq<char>, Seq<char>) {
    let eq = char_end(item, 0, '=');
    if eq < item.len() {
        (item.take(eq), strip_both(item.skip(eq + 1), '"'))
    } else {
        (item, "true"@)
    }
}

/// The build configuration set by `--cfg` items; a later item for the
/// same key wins.
pub open spec fn cfg_items_spec(items: Seq<Seq<char>>) -> Map<Seq<char>, Seq<char>>
    decreases items.len(),
{
    if items.len() == 0 {
        Map::empty()
    } else {
        cfg_items_spec(items.drop_last()).insert(
            cfg_item_spec(items.last()).0,
            cfg_item_spec(items.last()).1,
        )
    }
}

/// Builds the configuration from `--cfg` items.
pub fn parse_cfg_items(items: &Vec<String>) -> (m: StrMap<String>)
    ensures
        cfg_view(m) == cfg_items_spec(crate::parser::string_views(items@)),
{
    let mut m: StrMap<String> = StrMap::new();
    let ghost iv = crate::parser::string_views(items@);
    assert(cfg_view(m) =~= Map::<Seq<char>, Seq<char>>::empty());
    let mut i: usize = 0;
    while i < items.len()
        invariant
            i <= items@.len(),
            iv == crate::parser::string_views(items@),
            cfg_view(m) == cfg_items_spec(iv.take(i as int)),
        decreases items@.len() - i,
    {
        assert(iv.take(i + 1).drop_last() =~= iv.take(i as int));
        let item = chars_of(items[i].as_str());
        assert(item@ == iv[i as int]);
        let eq = find_char(&item, '=');
        proof {
            lemma_char_end_bounds(item@, 0, '=');
        }
        let ghost before = cfg_view(m);
        if eq < item.len() {
            let key = slice_of(&item, 0, eq);
            let dq = vec!['"'];
            assert(dq@ =~= seq!['"']);
            let raw = slice_of(&item, eq + 1, item.len());
            let val = trim_end_matches(&trim_start_matches(&raw, &dq), &dq);
            assert(key@ =~= item@.take(eq as int));
            assert(raw@ =~= item@.skip(eq + 1));
            let ks = string_of(&key);
            let vs = string_of(&val);
            let ghost vv = vs@;
            m.insert(ks, vs);
            assert(cfg_view(m) =~= before.insert(key@, vv));
        } else {
            let ks = string_of(&item);
            let vs = string_of(&chars_of("true"));
            let ghost vv = vs@;
            m.insert(ks, vs);
            assert(cfg_view(m) =~= before.insert(item@, vv));
        }
        i = i + 1;
    }
    assert(iv.take(i as int) =~= iv);
    m
}

/// The map of `-e` pairs; a later pair for the same name wins.
pub open spec fn pairs_spec(pairs: Seq<(Seq<char>, Seq<char>)>) -> Map<Seq<char>, Seq<char>>
    decreases pairs.len(),
{
    if pairs.len() == 0 {
        Map::empty()
    } else {
        pairs_spec(pairs.drop_last()).insert(pairs.last().0, pairs.last().1)
    }
}

/// Collects name/path pairs into a map.
pub fn collect_pairs(pairs: &Vec<(String, String)>) -> (m: StrMap<String>)
    ensures
        cfg_view(m) == pairs_spec(crate::parser::pair_views(pairs@)),
{
    let ghost pv = crate::parser::pair_views(pairs@);
    let mut m: StrMap<String> = StrMap::new();
    assert(cfg_view(m) =~= Map::<Seq<char>, Seq<char>>::empty());
    let mut i: usize = 0;
    while i < pairs.len()
        invariant
            i <= pairs@.len(),
            pv == crate::parser::pair_views(pairs@),
            cfg_view(m) == pairs_spec(pv.take(i as int)),
        decreases pairs@.len() - i,
    {
        assert(pv.take(i + 1).drop_last() =~= pv.take(i as int));
        assert(pv[i as int] == (pairs@[i as int].0@, pairs@[i as int].1@));
        let ghost before = cfg_view(m);
        let k = crate::parser::copy_string(&pairs[i].0);
        let v = crate::parser::copy_string(&pairs[i].1);
        let ghost kv = k@;
        let ghost vv = v@;
        m.insert(k, v);
        assert(cfg_view(m) =~= before.insert(kv, vv));
        i = i + 1;
    }
    assert(pv.take(i as int) =~= pv);
    m
}

/// The progress percentage of step `index` of `total` in a phase that
/// starts at `base` and spans `span` points.
pub fn progress_percent(base: usize, span: usize, index: usize, total: usize) -> (p: usize)
    requires
        total > 0,
        index * span <= usize::MAX,
        base + (index * span) / (total as int) <= usize::MAX,
    ensures
        p == base + (index * span) / (total as int),
{
    base + (index * span) / total
}

/// The output directory: the one given, or `build` inside the project
/// directory.
pub open spec fn output_dir_spec(project_dir: Seq<char>, output: Option<Seq<char>>) -> Seq<char> {
    match output {
        Some(o) => o,
        None => project_dir + "/build"@,
    }
}

/// Chooses the output directory.
pub fn output_dir(project_dir: &str, output: Option<&str>) -> (r: String)
    ensures
        r@ == output_dir_spec(project_dir@, crate::codegen::opt_str_view(output)),
{
    match output {
        Some(o) => string_of(&chars_of(o)),
        None => {
            let mut v = chars_of(project_dir);
            crate::text::append_str(&mut v, "/build");
            string_of(&v)
        },
    }
}

/// Whether a file name names an RC++ source: it ends in `.rcx`.
pub fn is_rcx_file_name(name: &str) -> (r: bool)
    ensures
        r == crate::text::has_suffix(name@, ".rcx"@),
{
    crate::text::ends_with(&chars_of(name), &chars_of(".rcx"))
}

/// A step of a build that is reported with its progress.
#[derive(Debug)]
pub enum BuildEvent {
    /// The sources were found.
    Found { count: usize },
    /// A module is being registered.
    Registering { file: String },
    /// Every module is registered.
    Registered,
    /// A module's C++ files are being generated.
    Generating { file: String },
    /// Every module's C++ files are generated.
    Preprocessed,
    /// The compiler is about to run on the generated sources.
    Compiling { count: usize },
    /// One source is being compiled.
    CompilingFile { file: String },
    /// Every source compiled.
    Compiled,
    /// The build ends without a compiler.
    NoCompiler,
}

/// The message that reports a build step.
pub open spec fn event_message(e: BuildEvent) -> Seq<char> {
    match e {
        BuildEvent::Found { count } => "Found "@ + crate::text::decimal(count as nat)
            + " RC++ modules"@,
        BuildEvent::Registering { file } => "Registering "@ + file@,
        BuildEvent::Registered => "All modules registered"@,
        BuildEvent::Generating { file } => "Generating "@ + file@,
        BuildEvent::Preprocessed => "Preprocessing complete"@,
        BuildEvent::Compiling { count } => "Compiling "@ + crate::text::decimal(count as nat)
            + " files to .o"@,
        BuildEvent::CompilingFile { file } => "Compiling "@ + file@,
        BuildEvent::Compiled => "Compilation successful (object files generated)"@,
        BuildEvent::NoCompiler => "Preprocessing successful (no compiler invoked)"@,
    }
}

/// Writes the message that reports a build step.
pub fn event_text(e: &BuildEvent) -> (r: String)
    ensures
        r@ == event_message(*e),
{
    let mut out: Vec<char> = Vec::new();
    match e {
        BuildEvent::Found { count } => {
            crate::text::append_str(&mut out, "Found ");
            crate::text::push_decimal(&mut out, *count);
            crate::text::append_str(&mut out, " RC++ modules");
        },
        BuildEvent::Registering { file } => {
            crate::text::append_str(&mut out, "Registering ");
            crate::text::append_str(&mut out, file.as_str());
        },
        BuildEvent::Registered => {
            crate::text::append_str(&mut out, "All modules registered");
        },
        BuildEvent::Generating { file } => {
            crate::text::append_str(&mut out, "Generating ");
            crate::text::append_str(&mut out, file.as_str());
        },
        BuildEvent::Preprocessed => {
            crate::text::append_str(&mut out, "Preprocessing complete");
        },
        BuildEvent::Compiling { count } => {
            crate::text::append_str(&mut out, "Compiling ");
            crate::text::push_decimal(&mut out, *count);
            crate::text::append_str(&mut out, " files to .o");
        },
        BuildEvent::CompilingFile { file } => {
            crate::text::append_str(&mut out, "Compiling ");
            crate::text::append_str(&mut out, file.as_str());
        },
        BuildEvent::Compiled => {
            crate::text::append_str(&mut out, "Compilation successful (object files generated)");
        },
        BuildEvent::NoCompiler => {
            crate::text::append_str(&mut out, "Preprocessing successful (no compiler invoked)");
        },
    }
    string_of(&out)
}

} // verus!
