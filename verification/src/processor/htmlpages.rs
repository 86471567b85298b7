//! Page templates: the commands `import` and `import-js` pull other files into a
//! template; the pairs `output-begin <file>` ... `output-end <file>` cut pages out of it.

use vstd::prelude::*;
use vstd::utf8::encode_utf8;
use crate::config::{ConfigMeta, ConfigModule};
use crate::processor::{
    build_name, deploy_name, sub_name, spec_build_name, spec_deploy_name, spec_sub_name, src_dir,
    spec_src_dir, build_dir, spec_build_dir, deploy_dir, spec_deploy_dir, chain_module,
    module_wired,
};
use crate::aggregate::TaskGraph;
use crate::paths::{join, spec_join, parent, path_parent, strip_prefix, path_strip_prefix};
use crate::template::{
    find_commands, cmd_matches, is_match_list, is_chain, chain_end, cmd_word, cmd_arg, cmd_end,
    match_views, candidate, first_match, lemma_chain_prefix, lemma_cmd_matches_complete,
};
use crate::text::chars_of;
use crate::vinyl::{FileHandle, FileView, handle_views, string_views, Vinyl, TaskOutcome, saves_of};
use vstd::utf8::{valid_utf8, decode_utf8, encode_utf8_valid_utf8, encode_utf8_decode_utf8};

verus! {

broadcast use vstd::string::group_string_axioms;

/// The options of a pages module: where its pages are, under the sources, and where
/// they go, under the build or deploy directory.
#[derive(Debug)]
pub struct OptionsHTMLPages {
    pub prefix: String,
    pub dest: String,
}

impl Default for OptionsHTMLPages {
    fn default() -> (r: OptionsHTMLPages)
        ensures
            r.prefix@.len() == 0 && r.dest@.len() == 0,
    {
        OptionsHTMLPages { prefix: String::new(), dest: String::new() }
    }
}

/// The processor of page templates.
#[derive(Debug)]
pub struct ProcessorHTMLPages();

impl Default for ProcessorHTMLPages {
    fn default() -> (r: ProcessorHTMLPages)
        ensures
            r == ProcessorHTMLPages(),
    {
        ProcessorHTMLPages()
    }
}

/// A piece of an expanded template: text that is kept, or a file whose contents
/// go in its place, as they are or inside a `<script>` element.
pub enum TemplatePart {
    Text(String),
    Import(String),
    Script(String),
}

pub enum PartView {
    Text(Seq<char>),
    Import(Seq<char>),
    Script(Seq<char>),
}

impl View for TemplatePart {
    type V = PartView;

    open spec fn view(&self) -> PartView {
        match self {
            TemplatePart::Text(s) => PartView::Text(s@),
            TemplatePart::Import(s) => PartView::Import(s@),
            TemplatePart::Script(s) => PartView::Script(s@),
        }
    }
}

pub open spec fn part_views(ps: Seq<TemplatePart>) -> Seq<PartView> {
    ps.map_values(|p: TemplatePart| p@)
}

pub open spec fn word_import() -> Seq<char> {
    seq!['i', 'm', 'p', 'o', 'r', 't']
}

pub open spec fn word_import_js() -> Seq<char> {
    seq!['i', 'm', 'p', 'o', 'r', 't', '-', 'j', 's']
}

pub open spec fn word_output_begin() -> Seq<char> {
    seq!['o', 'u', 't', 'p', 'u', 't', '-', 'b', 'e', 'g', 'i', 'n']
}

pub open spec fn word_output_end() -> Seq<char> {
    seq!['o', 'u', 't', 'p', 'u', 't', '-', 'e', 'n', 'd']
}

/// The file an import argument names: an argument that starts with `/` is taken from
/// the sources directory, any other from the template's directory.
pub open spec fn import_target(arg: Seq<char>, template_dirname: Seq<char>, meta: ConfigMeta) -> Seq<
    char,
> {
    if arg[0] == '/' {
        spec_join(spec_join(meta.base_path@, meta.src_path@), arg.drop_first())
    } else {
        spec_join(template_dirname, arg)
    }
}

/// An import argument can be read: its first character takes one byte.
pub open spec fn import_arg_ok(arg: Seq<char>) -> bool {
    arg.len() > 0 && (arg[0] as u32) < 128
}

/// What one command becomes in the expanded template.
pub open spec fn command_part(t: Seq<char>, m: (int, int, int), template_dirname: Seq<char>, meta: ConfigMeta) -> Seq<PartView> {
    let w = cmd_word(t, m);
    if w == word_import() {
        seq![PartView::Import(import_target(cmd_arg(t, m), template_dirname, meta))]
    } else if w == word_import_js() {
        seq![PartView::Script(import_target(cmd_arg(t, m), template_dirname, meta))]
    } else if w == word_output_begin() || w == word_output_end() {
        seq![PartView::Text(t.subrange(m.0, cmd_end(m)))]
    } else {
        Seq::empty()
    }
}

/// The expansion of the commands `ms` and of the text before each of them.
pub open spec fn parts_of(t: Seq<char>, ms: Seq<(int, int, int)>, template_dirname: Seq<char>, meta: ConfigMeta) -> Seq<PartView>
    decreases ms.len(),
{
    if ms.len() == 0 {
        Seq::empty()
    } else {
        parts_of(t, ms.drop_last(), template_dirname, meta) + seq![
            PartView::Text(t.subrange(chain_end(0, ms.drop_last()), ms.last().0)),
        ] + command_part(t, ms.last(), template_dirname, meta)
    }
}

/// The expansion of a template: each command in turn, with the text around them.
pub open spec fn spec_template_parts(t: Seq<char>, template_dirname: Seq<char>, meta: ConfigMeta) -> Seq<PartView> {
    let ms = cmd_matches(t);
    parts_of(t, ms, template_dirname, meta) + seq![
        PartView::Text(t.subrange(chain_end(0, ms), t.len() as int)),
    ]
}

/// The command `m` is an import whose argument cannot be read.
pub open spec fn bad_import(t: Seq<char>, m: (int, int, int)) -> bool {
    (cmd_word(t, m) == word_import() || cmd_word(t, m) == word_import_js()) && !import_arg_ok(cmd_arg(t, m))
}

/// `ps` is the expansion of `t` as far as its first import whose argument cannot be
/// read, and `bad` that command's index; or, where every import can be read, `ps` is
/// the whole expansion and `bad` is `None`.
pub open spec fn expanded_until_unreadable(t: Seq<char>, template_dirname: Seq<char>, meta: ConfigMeta, ps: Seq<PartView>, bad: Option<usize>) -> bool {
    match bad {
        None => imports_well_formed(t) && ps == spec_template_parts(t, template_dirname, meta),
        Some(k) => k < cmd_matches(t).len() && bad_import(t, cmd_matches(t)[k as int])
            && (forall|j: int| 0 <= j < k ==> !bad_import(t, #[trigger] cmd_matches(t)[j]))
            && ps == parts_of(t, cmd_matches(t).take(k as int), template_dirname, meta),
    }
}

/// Every import in the template has an argument that can be read.
pub open spec fn imports_well_formed(t: Seq<char>) -> bool {
    forall|i: int|
        0 <= i < cmd_matches(t).len() ==> ((cmd_word(t, #[trigger] cmd_matches(t)[i])
            == word_import() || cmd_word(t, cmd_matches(t)[i]) == word_import_js()) ==> import_arg_ok(
            cmd_arg(t, cmd_matches(t)[i]),
        ))
}

/// The number of files that an expansion pulls in.
pub open spec fn import_count(ps: Seq<PartView>) -> nat
    decreases ps.len(),
{
    if ps.len() == 0 {
        0
    } else {
        import_count(ps.drop_first()) + match ps[0] {
            PartView::Text(_) => 0nat,
            _ => 1nat,
        }
    }
}

pub open spec fn script_open() -> Seq<char> {
    seq!['<', 's', 'c', 'r', 'i', 'p', 't', '>']
}

pub open spec fn script_close() -> Seq<char> {
    seq!['<', '/', 's', 'c', 'r', 'i', 'p', 't', '>']
}

/// The expanded template, given the contents of the files it pulls in, in order.
pub open spec fn spec_assemble(ps: Seq<PartView>, contents: Seq<Seq<char>>) -> Seq<char>
    decreases ps.len(),
{
    if ps.len() == 0 {
        Seq::empty()
    } else {
        match ps[0] {
            PartView::Text(s) => s + spec_assemble(ps.drop_first(), contents),
            PartView::Import(_) => contents[0] + spec_assemble(
                ps.drop_first(),
                contents.drop_first(),
            ),
            PartView::Script(_) => script_open() + contents[0] + script_close() + spec_assemble(
                ps.drop_first(),
                contents.drop_first(),
            ),
        }
    }
}

/// The last `output-begin` among the first `i` commands whose argument is `name`.
pub open spec fn begin_before(t: Seq<char>, ms: Seq<(int, int, int)>, i: int, name: Seq<char>) -> Option<int>
    decreases i,
{
    if i <= 0 {
        None
    } else if cmd_word(t, ms[i - 1]) == word_output_begin() && cmd_arg(t, ms[i - 1]) == name {
        Some(i - 1)
    } else {
        begin_before(t, ms, i - 1, name)
    }
}

/// The pages cut out by the first `k` commands: each `output-end <file>` that follows
/// an `output-begin <file>` gives the file `<page_dir>/<file>` under `out_prefix`, holding
/// the text between the latest such begin and the end.
pub open spec fn outputs_of(t: Seq<char>, ms: Seq<(int, int, int)>, k: int, page_dir: Seq<char>, out_prefix: Seq<char>) -> Seq<FileView>
    decreases k,
{
    if k <= 0 {
        Seq::empty()
    } else {
        let prev = outputs_of(t, ms, k - 1, page_dir, out_prefix);
        let m = ms[k - 1];
        if cmd_word(t, m) == word_output_end() {
            match begin_before(t, ms, k - 1, cmd_arg(t, m)) {
                Some(j) => prev.push(
                    FileView {
                        out_path: out_prefix,
                        rel_path: spec_join(page_dir, cmd_arg(t, m)),
                        data: encode_utf8(t.subrange(cmd_end(ms[j]), m.0)),
                    },
                ),
                None => prev,
            }
        } else {
            prev
        }
    }
}

/// The pages that an expanded template cuts out.
pub open spec fn spec_output_files(t: Seq<char>, page_dir: Seq<char>, out_prefix: Seq<char>) -> Seq<FileView> {
    outputs_of(t, cmd_matches(t), cmd_matches(t).len() as int, page_dir, out_prefix)
}

/// `v[a..b]` spells `w`.
fn word_is(v: &Vec<char>, a: usize, b: usize, w: &str) -> (r: bool)
    requires
        a <= b <= v.len(),
    ensures
        r == (v@.subrange(a as int, b as int) == w@),
{
    let n = w.unicode_len();
    if b - a != n {
        assert(v@.subrange(a as int, b as int).len() != w@.len());
        return false;
    }
    let mut i: usize = 0;
    while i < n
        invariant
            a <= b <= v.len(),
            b - a == w@.len() == n,
            i <= n,
            forall|k: int| 0 <= k < i ==> v@[a + k] == w@[k],
        decreases n - i,
    {
        if v[a + i] != w.get_char(i) {
            assert(v@.subrange(a as int, b as int)[i as int] != w@[i as int]);
            return false;
        }
        i = i + 1;
    }
    assert(v@.subrange(a as int, b as int) =~= w@);
    true
}

/// Which of the known commands `v[a..b]` is: import, import-js, output-begin, output-end.
fn command_kind(v: &Vec<char>, a: usize, b: usize) -> (r: (bool, bool, bool, bool))
    requires
        a <= b <= v.len(),
    ensures
        r.0 == (v@.subrange(a as int, b as int) == word_import()),
        r.1 == (v@.subrange(a as int, b as int) == word_import_js()),
        r.2 == (v@.subrange(a as int, b as int) == word_output_begin()),
        r.3 == (v@.subrange(a as int, b as int) == word_output_end()),
{
    proof {
        reveal_strlit("import");
        reveal_strlit("import-js");
        reveal_strlit("output-begin");
        reveal_strlit("output-end");
        assert("import"@ =~= word_import());
        assert("import-js"@ =~= word_import_js());
        assert("output-begin"@ =~= word_output_begin());
        assert("output-end"@ =~= word_output_end());
    }
    (word_is(v, a, b, "import"), word_is(v, a, b, "import-js"), word_is(v, a, b, "output-begin"),
        word_is(v, a, b, "output-end"))
}

fn import_path(arg: &str, template_dirname: &str, meta: &ConfigMeta) -> (r: String)
    requires
        import_arg_ok(arg@),
    ensures
        r@ == import_target(arg@, template_dirname@, *meta),
{
    if arg.get_char(0) == '/' {
        let src = join(meta.base_path.as_str(), meta.src_path.as_str());
        let len = arg.unicode_len();
        let rest = arg.substring_char(1, len);
        assert(rest@ =~= arg@.drop_first());
        join(src.as_str(), rest)
    } else {
        join(template_dirname, arg)
    }
}

/// Facts about the `i`th command of a complete list.
proof fn lemma_nth_match(t: Seq<char>, ms: Seq<(int, int, int)>, i: int)
    requires
        is_match_list(t, 0, ms),
        0 <= i < ms.len(),
    ensures
        chain_end(0, ms.take(i)) <= ms[i].0,
        ms[i].0 + 5 < ms[i].1,
        ms[i].1 + 1 < ms[i].2,
        ms[i].2 + 4 <= t.len(),
        first_match(t, chain_end(0, ms.take(i)), ms[i]),
        ms.take(i + 1).drop_last() == ms.take(i),
        chain_end(0, ms.take(i + 1)) == cmd_end(ms[i]),
{
    lemma_chain_prefix(t, 0, ms, i);
    assert(candidate(t, ms[i].0, ms[i].1, ms[i].2));
    assert(ms.take(i + 1).drop_last() =~= ms.take(i));
}

proof fn lemma_begin_before(t: Seq<char>, ms: Seq<(int, int, int)>, i: int, name: Seq<char>)
    ensures
        begin_before(t, ms, i, name) matches Some(j) ==> 0 <= j < i && cmd_word(t, ms[j])
            == word_output_begin() && cmd_arg(t, ms[j]) == name,
    decreases i,
{
    if i > 0 {
        lemma_begin_before(t, ms, i - 1, name);
    }
}

/// Earlier commands end before later ones start.
proof fn lemma_chain_order(t: Seq<char>, ms: Seq<(int, int, int)>, j: int, i: int)
    requires
        is_match_list(t, 0, ms),
        0 <= j < i < ms.len(),
    ensures
        cmd_end(ms[j]) <= ms[i].0,
    decreases i - j,
{
    lemma_nth_match(t, ms, i);
    lemma_nth_match(t, ms, i - 1);
    assert(ms.take(i).last() == ms[i - 1]);
    if j < i - 1 {
        lemma_chain_order(t, ms, j, i - 1);
    }
}

impl ProcessorHTMLPages {
    /// The file an import argument names.
    pub fn format_import_arg(arg: String, template_dirname: String, meta: ConfigMeta) -> (r: String)
        requires
            import_arg_ok(arg@),
        ensures
            r@ == import_target(arg@, template_dirname@, meta),
    {
        import_path(arg.as_str(), template_dirname.as_str(), &meta)
    }

    /// Whether every import of `template` has an argument that can be read.
    pub fn imports_readable(template: &String) -> (r: bool)
        ensures
            r == imports_well_formed(template@),
    {
        let v = chars_of(template.as_str());
        let ms = find_commands(&v);
        let ghost t = template@;
        let ghost mv = match_views(ms@);
        for i in 0..ms.len()
            invariant
                v@ == t,
                t == template@,
                mv == cmd_matches(t),
                mv == match_views(ms@),
                is_match_list(t, 0, mv),
                forall|k: int|
                    0 <= k < i ==> ((cmd_word(t, #[trigger] cmd_matches(t)[k]) == word_import()
                        || cmd_word(t, cmd_matches(t)[k]) == word_import_js()) ==> import_arg_ok(
                        cmd_arg(t, cmd_matches(t)[k]),
                    )),
        {
            let m = ms[i];
            proof {
                lemma_nth_match(t, mv, i as int);
            }
            let (is_import, is_script, _, _) = command_kind(&v, m.0 + 5, m.1);
            if is_import || is_script {
                let c = v[m.1 + 1];
                if (c as u32) >= 128 {
                    proof {
                        assert(cmd_arg(t, mv[i as int])[0] == c);
                    }
                    return false;
                }
                proof {
                    assert(cmd_arg(t, mv[i as int])[0] == c);
                }
            }
        }
        true
    }

    /// The expansion of `template`, whose directory is `template_dirname`: its text,
    /// with each `import` and `import-js` command replaced by the file it names, each
    /// `output-begin` and `output-end` command kept, and other commands dropped.
    pub fn template_parts(template_dirname: &String, meta: &ConfigMeta, template: &String) -> (r: Vec<TemplatePart>)
        requires
            imports_well_formed(template@),
        ensures
            part_views(r@) == spec_template_parts(template@, template_dirname@, *meta),
    {
        let (parts, bad) = ProcessorHTMLPages::template_parts_until_unreadable(template_dirname, meta, template);
        match bad {
            None => parts,
            Some(k) => {
                proof {
                    assert(bad_import(template@, cmd_matches(template@)[k as int]));
                }
                parts
            },
        }
    }

    /// The expansion of `template` as far as its first import whose argument cannot be
    /// read, with that command's index; the whole expansion, and `None`, where every
    /// import can be read.
    pub fn template_parts_until_unreadable(template_dirname: &String, meta: &ConfigMeta, template: &String) -> (r: (Vec<TemplatePart>, Option<usize>))
        ensures
            expanded_until_unreadable(template@, template_dirname@, *meta, part_views(r.0@), r.1),
    {
        let v = chars_of(template.as_str());
        let ms = find_commands(&v);
        let ghost t = template@;
        let ghost mv = match_views(ms@);
        let mut parts: Vec<TemplatePart> = Vec::new();
        let mut last: usize = 0;
        assert(part_views(parts@) =~= parts_of(t, mv.take(0), template_dirname@, *meta));
        for i in 0..ms.len()
            invariant
                v@ == t,
                t == template@,
                mv == cmd_matches(t),
                mv == match_views(ms@),
                is_match_list(t, 0, mv),
                forall|j: int| 0 <= j < i ==> !bad_import(t, #[trigger] mv[j]),
                part_views(parts@) == parts_of(t, mv.take(i as int), template_dirname@, *meta),
                last == chain_end(0, mv.take(i as int)),
        {
            let m = ms[i];
            proof {
                lemma_nth_match(t, mv, i as int);
                assert(mv[i as int] == (m.0 as int, m.1 as int, m.2 as int));
            }
            assert(last <= m.0 && m.2 + 4 <= v.len());
            let (is_import, is_script, is_begin, is_end) = command_kind(&v, m.0 + 5, m.1);
            if is_import || is_script {
                let c = v[m.1 + 1];
                proof {
                    assert(cmd_arg(t, mv[i as int])[0] == c);
                }
                if (c as u32) >= 128 {
                    return (parts, Some(i));
                }
            }
            let text = template.as_str().substring_char(last, m.0).to_owned();
            parts.push(TemplatePart::Text(text));
            if is_import || is_script {
                let arg = template.as_str().substring_char(m.1 + 1, m.2);
                let target = import_path(arg, template_dirname.as_str(), meta);
                if is_import {
                    parts.push(TemplatePart::Import(target));
                } else {
                    parts.push(TemplatePart::Script(target));
                }
            } else if is_begin || is_end {
                let kept = template.as_str().substring_char(m.0, m.2 + 4).to_owned();
                parts.push(TemplatePart::Text(kept));
            }
            proof {
                assert(part_views(parts@) =~= parts_of(
                    t,
                    mv.take(i + 1),
                    template_dirname@,
                    *meta,
                ));
            }
            last = m.2 + 4;
        }
        proof {
            assert(mv.take(ms@.len() as int) =~= mv);
            assert forall|i: int| 0 <= i < cmd_matches(t).len() implies ((cmd_word(t, #[trigger] cmd_matches(t)[i])
                == word_import() || cmd_word(t, cmd_matches(t)[i]) == word_import_js()) ==> import_arg_ok(
                cmd_arg(t, cmd_matches(t)[i]),
            )) by {
                assert(!bad_import(t, mv[i]));
            }
        }
        let len = template.as_str().unicode_len();
        let tail = template.as_str().substring_char(last, len).to_owned();
        parts.push(TemplatePart::Text(tail));
        assert(part_views(parts@) =~= spec_template_parts(t, template_dirname@, *meta));
        (parts, None)
    }
}

/// `v[a1..b1]` and `v[a2..b2]` hold the same characters.
fn ranges_equal(v: &Vec<char>, a1: usize, b1: usize, a2: usize, b2: usize) -> (r: bool)
    requires
        a1 <= b1 <= v.len(),
        a2 <= b2 <= v.len(),
    ensures
        r == (v@.subrange(a1 as int, b1 as int) == v@.subrange(a2 as int, b2 as int)),
{
    if b1 - a1 != b2 - a2 {
        assert(v@.subrange(a1 as int, b1 as int).len() != v@.subrange(a2 as int, b2 as int).len());
        return false;
    }
    let n = b1 - a1;
    let ghost s1 = v@.subrange(a1 as int, b1 as int);
    let ghost s2 = v@.subrange(a2 as int, b2 as int);
    let mut i: usize = 0;
    while i < n
        invariant
            a1 <= b1 <= v.len(),
            a2 <= b2 <= v.len(),
            s1 == v@.subrange(a1 as int, b1 as int),
            s2 == v@.subrange(a2 as int, b2 as int),
            n == b1 - a1 == b2 - a2,
            i <= n,
            forall|k: int| 0 <= k < i ==> #[trigger] s1[k] == s2[k],
        decreases n - i,
    {
        if v[a1 + i] != v[a2 + i] {
            assert(s1[i as int] != s2[i as int]);
            return false;
        }
        i = i + 1;
    }
    assert(v@.subrange(a1 as int, b1 as int) =~= v@.subrange(a2 as int, b2 as int));
    true
}

/// The latest `output-begin` among the first `i` commands with the same argument as
/// the command `e`.
fn find_begin(v: &Vec<char>, ms: &Vec<(usize, usize, usize)>, i: usize, e: (usize, usize, usize)) -> (r: Option<usize>)
    requires
        is_match_list(v@, 0, match_views(ms@)),
        i < ms@.len(),
        match_views(ms@)[i as int] == (e.0 as int, e.1 as int, e.2 as int),
    ensures
        match r {
            None => begin_before(v@, match_views(ms@), i as int, cmd_arg(v@, match_views(ms@)[i as int])) is None,
            Some(j) => begin_before(v@, match_views(ms@), i as int, cmd_arg(v@, match_views(ms@)[i as int])) == Some(j as int),
        },
{
    let ghost t = v@;
    let ghost mv = match_views(ms@);
    let ghost name = cmd_arg(t, mv[i as int]);
    proof {
        lemma_nth_match(t, mv, i as int);
    }
    let mut j: usize = i;
    while j > 0
        invariant
            t == v@,
            mv == match_views(ms@),
            is_match_list(t, 0, mv),
            j <= i < ms@.len(),
            e.1 + 1 < e.2 <= t.len(),
            name == t.subrange(e.1 + 1, e.2 as int),
            name == cmd_arg(t, mv[i as int]),
            begin_before(t, mv, i as int, name) == begin_before(t, mv, j as int, name),
        decreases j,
    {
        let m = ms[j - 1];
        proof {
            lemma_nth_match(t, mv, j - 1);
            assert(mv[j - 1] == (m.0 as int, m.1 as int, m.2 as int));
        }
        let (_, _, is_begin, _) = command_kind(v, m.0 + 5, m.1);
        let same = ranges_equal(v, m.1 + 1, m.2, e.1 + 1, e.2);
        assert(same == (cmd_arg(t, mv[j - 1]) == name));
        if is_begin && same {
            assert(cmd_word(t, mv[j - 1]) == word_output_begin());
            assert(begin_before(t, mv, j as int, name) == Some(j - 1));
            return Some(j - 1);
        }
        j = j - 1;
    }
    None
}

impl ProcessorHTMLPages {
    /// The expanded template, given the contents of the files it pulls in, in order.
    pub fn assemble(parts: &Vec<TemplatePart>, contents: &Vec<String>) -> (r: String)
        requires
            contents@.len() == import_count(part_views(parts@)),
        ensures
            r@ == spec_assemble(part_views(parts@), string_views(contents@)),
    {
        let ghost ps = part_views(parts@);
        let ghost cs = string_views(contents@);
        let mut r = String::new();
        let mut k: usize = 0;
        assert(ps.skip(0) =~= ps);
        assert(cs.skip(0) =~= cs);
        for i in 0..parts.len()
            invariant
                ps == part_views(parts@),
                cs == string_views(contents@),
                cs.len() == contents@.len(),
                k <= cs.len(),
                k + import_count(ps.skip(i as int)) == cs.len(),
                r@ + spec_assemble(ps.skip(i as int), cs.skip(k as int)) == spec_assemble(ps, cs),
        {
            let ghost rest = ps.skip(i as int);
            proof {
                assert(rest.drop_first() =~= ps.skip(i + 1));
                assert(rest[0] == parts@[i as int]@);
            }
            let ghost before = r@;
            match &parts[i] {
                TemplatePart::Text(s) => {
                    proof {
                        assert(rest[0] is Text);
                        assert(import_count(rest) == import_count(ps.skip(i + 1)));
                    }
                    r.append(s.as_str());
                    proof {
                        assert(r@ + spec_assemble(ps.skip(i + 1), cs.skip(k as int)) =~= before
                            + spec_assemble(rest, cs.skip(k as int)));
                    }
                },
                TemplatePart::Import(_) => {
                    proof {
                        assert(rest[0] is Import);
                        assert(import_count(rest) == import_count(ps.skip(i + 1)) + 1);
                        assert(k < contents.len());
                        assert(cs.skip(k as int).drop_first() =~= cs.skip(k + 1));
                        assert(cs.skip(k as int)[0] == contents@[k as int]@);
                    }
                    r.append(contents[k].as_str());
                    proof {
                        assert(r@ + spec_assemble(ps.skip(i + 1), cs.skip(k + 1)) =~= before
                            + spec_assemble(rest, cs.skip(k as int)));
                    }
                    k = k + 1;
                },
                TemplatePart::Script(_) => {
                    proof {
                        assert(rest[0] is Script);
                        assert(import_count(rest) == import_count(ps.skip(i + 1)) + 1);
                        assert(k < contents.len());
                        assert(cs.skip(k as int).drop_first() =~= cs.skip(k + 1));
                        assert(cs.skip(k as int)[0] == contents@[k as int]@);
                        reveal_strlit("<script>");
                        reveal_strlit("</script>");
                        assert("<script>"@ =~= script_open());
                        assert("</script>"@ =~= script_close());
                    }
                    r.append("<script>");
                    r.append(contents[k].as_str());
                    r.append("</script>");
                    proof {
                        assert(r@ + spec_assemble(ps.skip(i + 1), cs.skip(k + 1)) =~= before
                            + spec_assemble(rest, cs.skip(k as int)));
                    }
                    k = k + 1;
                },
            }
        }
        proof {
            assert(ps.skip(parts@.len() as int) =~= Seq::<PartView>::empty());
            assert(r@ + Seq::<char>::empty() =~= r@);
        }
        r
    }

    /// The pages that the expanded template `stage1_file` cuts out, in order, each under
    /// `out_prefix` at `<page_dir>/<file>`.
    pub fn output_files(page_dir: &String, stage1_file: &String, out_prefix: &String) -> (r: Vec<FileHandle>)
        ensures
            handle_views(r@) == spec_output_files(stage1_file@, page_dir@, out_prefix@),
    {
        let v = chars_of(stage1_file.as_str());
        let ms = find_commands(&v);
        let ghost t = stage1_file@;
        let ghost mv = match_views(ms@);
        let mut files: Vec<FileHandle> = Vec::new();
        assert(handle_views(files@) =~= outputs_of(t, mv, 0, page_dir@, out_prefix@));
        for i in 0..ms.len()
            invariant
                v@ == t,
                t == stage1_file@,
                mv == cmd_matches(t),
                mv == match_views(ms@),
                is_match_list(t, 0, mv),
                handle_views(files@) == outputs_of(t, mv, i as int, page_dir@, out_prefix@),
        {
            let m = ms[i];
            proof {
                lemma_nth_match(t, mv, i as int);
            }
            let (_, _, _, is_end) = command_kind(&v, m.0 + 5, m.1);
            if is_end {
                match find_begin(&v, &ms, i, m) {
                    Some(j) => {
                        proof {
                            assert(begin_before(t, mv, i as int, cmd_arg(t, mv[i as int])) == Some(j as int));
                            lemma_begin_before(t, mv, i as int, cmd_arg(t, mv[i as int]));
                            lemma_nth_match(t, mv, j as int);
                            lemma_chain_order(t, mv, j as int, i as int);
                        }
                        let b = ms[j];
                        assert(mv[j as int] == (b.0 as int, b.1 as int, b.2 as int));
                        let name = stage1_file.as_str().substring_char(m.1 + 1, m.2);
                        let rel = join(page_dir.as_str(), name);
                        let data = stage1_file.as_str().substring_char(b.2 + 4, m.0).as_bytes_vec();
                        let ghost before = handle_views(files@);
                        let f = FileHandle::new(out_prefix.clone(), rel, data);
                        files.push(f);
                        proof {
                            assert(handle_views(files@) =~= before.push(f@));
                        }
                    },
                    None => {},
                }
            }
        }
        assert(mv.len() == ms@.len());
        files
    }

    /// The pages that `write_outputs` saves for the template at `template_path`, whose
    /// expansion is `stage1_file`: those that `output_files` cuts out, each at
    /// `<page_dir>/<file>`, where `page_dir` is the template's directory under
    /// `path_prefix`.
    pub fn write_outputs(template_path: &String, meta: &ConfigMeta, stage1_file: &String, path_prefix: &String, out_prefix: &String) -> (r: Vec<FileHandle>)
        requires
            path_parent(template_path@) is Some,
            spec_output_files(stage1_file@, Seq::empty(), out_prefix@).len() > 0 ==> path_strip_prefix(
                path_parent(template_path@).unwrap(),
                path_prefix@,
            ) is Some,
        ensures
            match path_strip_prefix(path_parent(template_path@).unwrap(), path_prefix@) {
                Some(page_dir) => handle_views(r@) == spec_output_files(stage1_file@, page_dir, out_prefix@),
                None => r@.len() == 0,
            },
    {
        let dir = parent(template_path.as_str()).unwrap();
        match strip_prefix(dir.as_str(), path_prefix.as_str()) {
            Some(page_dir) => ProcessorHTMLPages::output_files(&page_dir, stage1_file, out_prefix),
            None => {
                let empty = String::new();
                ProcessorHTMLPages::output_files(&empty, stage1_file, out_prefix)
            },
        }
    }

    /// `write_outputs`, or `None` where the template has no parent directory, or where
    /// a page is cut out but that directory is not under `path_prefix`.
    pub fn write_outputs_checked(template_path: &String, meta: &ConfigMeta, stage1_file: &String, path_prefix: &String, out_prefix: &String) -> (r: Option<Vec<FileHandle>>)
        ensures
            match r {
                None => path_parent(template_path@) is None || (path_strip_prefix(
                    path_parent(template_path@).unwrap(),
                    path_prefix@,
                ) is None && spec_output_files(stage1_file@, Seq::empty(), out_prefix@).len() > 0),
                Some(fs) => path_parent(template_path@) is Some && match path_strip_prefix(
                    path_parent(template_path@).unwrap(),
                    path_prefix@,
                ) {
                    Some(page_dir) => handle_views(fs@) == spec_output_files(
                        stage1_file@,
                        page_dir,
                        out_prefix@,
                    ),
                    None => fs@.len() == 0 && spec_output_files(
                        stage1_file@,
                        Seq::empty(),
                        out_prefix@,
                    ).len() == 0,
                },
            },
    {
        let dir = match parent(template_path.as_str()) {
            Some(d) => d,
            None => {
                return None;
            },
        };
        if strip_prefix(dir.as_str(), path_prefix.as_str()).is_none() {
            let empty = String::new();
            let cut = ProcessorHTMLPages::output_files(&empty, stage1_file, out_prefix);
            if cut.len() > 0 {
                return None;
            }
        }
        Some(ProcessorHTMLPages::write_outputs(template_path, meta, stage1_file, path_prefix, out_prefix))
    }

    /// The expansion of the template at `template_path`, whose text is `template`.
    pub fn process_template(template_path: &String, meta: &ConfigMeta, template: &String) -> (r: Vec<TemplatePart>)
        requires
            path_parent(template_path@) is Some,
            imports_well_formed(template@),
        ensures
            part_views(r@) == spec_template_parts(template@, path_parent(template_path@).unwrap(), *meta),
    {
        let dir = parent(template_path.as_str()).unwrap();
        ProcessorHTMLPages::template_parts(&dir, meta, template)
    }

    /// The expansion of the template at `template_path`, whose text is `template`, as
    /// far as its first import whose argument cannot be read, with that command's index
    /// (see `expanded_until_unreadable`); `None` where the path has no parent directory.
    pub fn process_template_checked(template_path: &String, meta: &ConfigMeta, template: &String) -> (r: Option<(Vec<TemplatePart>, Option<usize>)>)
        ensures
            match r {
                None => path_parent(template_path@) is None,
                Some(x) => path_parent(template_path@) is Some && expanded_until_unreadable(
                    template@,
                    path_parent(template_path@).unwrap(),
                    *meta,
                    part_views(x.0@),
                    x.1,
                ),
            },
    {
        match parent(template_path.as_str()) {
            None => None,
            Some(dir) => {
                if ProcessorHTMLPages::imports_readable(template) {
                    Some((ProcessorHTMLPages::process_template(template_path, meta, template), None))
                } else {
                    Some(ProcessorHTMLPages::template_parts_until_unreadable(&dir, meta, template))
                }
            },
        }
    }
}

/// The directory of a page under the pages directory `path_prefix`, for a template in
/// `dir`; empty where `dir` is not under it.
pub open spec fn page_dir_of(dir: Seq<char>, path_prefix: Seq<char>) -> Seq<char> {
    match path_strip_prefix(dir, path_prefix) {
        Some(d) => d,
        None => Seq::empty(),
    }
}

impl ProcessorHTMLPages {
    /// The task of the page whose template is at `template_path`, once the template is
    /// expanded into `parts` and the files those pull in are read into `contents`, in
    /// order: the pages that the expanded template cuts out are saved in order, up to
    /// the first that cannot be, and `v` is passed on. `None` where the template has no
    /// parent directory, or where a page is cut out but that directory is not under
    /// `path_prefix`.
    pub fn page_task(
        template_path: &String,
        meta: &ConfigMeta,
        parts: &Vec<TemplatePart>,
        contents: &Vec<String>,
        path_prefix: &String,
        out_prefix: &String,
        v: Vinyl,
    ) -> (r: Option<TaskOutcome>)
        requires
            contents@.len() == import_count(part_views(parts@)),
        ensures
            ({
                let stage1 = spec_assemble(part_views(parts@), string_views(contents@));
                match r {
                    None => path_parent(template_path@) is None || (path_strip_prefix(
                        path_parent(template_path@).unwrap(),
                        path_prefix@,
                    ) is None && spec_output_files(stage1, Seq::empty(), out_prefix@).len() > 0),
                    Some(o) => {
                        &&& path_parent(template_path@) is Some
                        &&& o.vinyl@ == v@
                        &&& saves_of(
                            spec_output_files(
                                stage1,
                                page_dir_of(path_parent(template_path@).unwrap(), path_prefix@),
                                out_prefix@,
                            ),
                            o.writes@,
                            o.failure,
                        )
                    },
                }
            }),
    {
        let stage1 = ProcessorHTMLPages::assemble(parts, contents);
        match ProcessorHTMLPages::write_outputs_checked(template_path, meta, &stage1, path_prefix, out_prefix) {
            None => None,
            Some(files) => {
                let pages = Vinyl::new(files);
                assert(pages@.handles =~= spec_output_files(
                    stage1@,
                    page_dir_of(path_parent(template_path@).unwrap(), path_prefix@),
                    out_prefix@,
                ));
                let (writes, failure) = pages.save_all();
                Some(TaskOutcome { vinyl: v, writes, failure })
            },
        }
    }
}

/// The tasks of one page: its names and the path of its template.
pub struct PagePlan {
    pub page: String,
    pub build_name_page: String,
    pub deploy_name_page: String,
    pub template_path: String,
}

/// The tasks of a pages module: where pages are found and where they go.
pub struct HtmlPagesPlan {
    pub build_name: String,
    pub deploy_name: String,
    pub build_prefix: String,
    pub deploy_prefix: String,
    pub path_prefix: String,
    pub pages: Vec<PagePlan>,
}

pub open spec fn template_file_name() -> Seq<char> {
    seq!['t', 'e', 'm', 'p', 'l', 'a', 't', 'e', '.', 'h', 't', 'm', 'l']
}

pub open spec fn requires_dir_name() -> Seq<char> {
    seq!['r', 'e', 'q', 'u', 'i', 'r', 'e', 's']
}

/// `<sources>/<prefix>`, where the pages are.
pub open spec fn pages_dir(meta: ConfigMeta, conf: ConfigModule<OptionsHTMLPages, Vec<String>>) -> Seq<char> {
    spec_join(spec_src_dir(meta), conf.options.prefix@)
}

/// What the `i`th page becomes.
pub open spec fn page_plan_ok(p: PagePlan, meta: ConfigMeta, conf: ConfigModule<OptionsHTMLPages, Vec<String>>, i: int) -> bool {
    let page = conf.content@[i]@;
    &&& p.page@ == page
    &&& p.build_name_page@ == spec_sub_name(spec_build_name(conf.name@), page)
    &&& p.deploy_name_page@ == spec_sub_name(spec_deploy_name(conf.name@), page)
    &&& p.template_path@ == spec_join(spec_join(pages_dir(meta, conf), page), template_file_name())
}

impl ProcessorHTMLPages {
    /// The tasks of a pages module, one build and one deploy task per page.
    pub fn plan(meta: &ConfigMeta, conf: &ConfigModule<OptionsHTMLPages, Vec<String>>) -> (r: HtmlPagesPlan)
        ensures
            r.build_name@ == spec_build_name(conf.name@),
            r.deploy_name@ == spec_deploy_name(conf.name@),
            r.build_prefix@ == spec_join(spec_build_dir(*meta), conf.options.dest@),
            r.deploy_prefix@ == spec_join(spec_deploy_dir(*meta), conf.options.dest@),
            r.path_prefix@ == pages_dir(*meta, *conf),
            r.pages@.len() == conf.content@.len(),
            forall|i: int| 0 <= i < r.pages@.len() ==> page_plan_ok(#[trigger] r.pages@[i], *meta, *conf, i),
    {
        let bname = build_name(conf.name.as_str());
        let dname = deploy_name(conf.name.as_str());
        let path_prefix = join(src_dir(meta).as_str(), conf.options.prefix.as_str());
        let mut pages: Vec<PagePlan> = Vec::new();
        proof {
            reveal_strlit("template.html");
            assert("template.html"@ =~= template_file_name());
        }
        for i in 0..conf.content.len()
            invariant
                bname@ == spec_build_name(conf.name@),
                dname@ == spec_deploy_name(conf.name@),
                path_prefix@ == pages_dir(*meta, *conf),
                "template.html"@ == template_file_name(),
                pages@.len() == i,
                forall|k: int| 0 <= k < i ==> page_plan_ok(#[trigger] pages@[k], *meta, *conf, k),
        {
            let page = &conf.content[i];
            let dir = join(path_prefix.as_str(), page.as_str());
            let p = PagePlan {
                page: page.clone(),
                build_name_page: sub_name(bname.as_str(), page.as_str()),
                deploy_name_page: sub_name(dname.as_str(), page.as_str()),
                template_path: join(dir.as_str(), "template.html"),
            };
            assert(page_plan_ok(p, *meta, *conf, i as int));
            pages.push(p);
        }
        HtmlPagesPlan {
            build_name: bname,
            deploy_name: dname,
            build_prefix: join(build_dir(meta).as_str(), conf.options.dest.as_str()),
            deploy_prefix: join(deploy_dir(meta).as_str(), conf.options.dest.as_str()),
            path_prefix,
            pages,
        }
    }

    /// The directories to watch (the pages and the shared `requires` directory) and the
    /// tasks to run when something in them changes.
    pub fn watcher_dirs_and_tasks(meta: &ConfigMeta, conf: &ConfigModule<OptionsHTMLPages, Vec<String>>) -> (r: (Vec<String>, Vec<String>))
        ensures
            r.0@.len() == 2,
            r.0@[0]@ == pages_dir(*meta, *conf),
            r.0@[1]@ == spec_join(spec_src_dir(*meta), requires_dir_name()),
            r.1@.len() == 1,
            r.1@[0]@ == spec_build_name(conf.name@),
    {
        let src = src_dir(meta);
        let mut dirs: Vec<String> = Vec::new();
        dirs.push(join(src.as_str(), conf.options.prefix.as_str()));
        proof {
            reveal_strlit("requires");
            assert("requires"@ =~= requires_dir_name());
        }
        dirs.push(join(src.as_str(), "requires"));
        let mut tasks: Vec<String> = Vec::new();
        tasks.push(build_name(conf.name.as_str()));
        (dirs, tasks)
    }
}

impl ProcessorHTMLPages {
    /// Adds the tasks of `plan` to `g`: each page's build and deploy task, then the
    /// module's build and deploy task (see `module_wired`); none is quiet.
    pub fn add_tasks(g: &mut TaskGraph, plan: &HtmlPagesPlan) -> (r: (usize, usize))
        requires
            old(g).wf(),
            old(g).tasks().len() + 2 * plan.pages@.len() + 2 <= u32::MAX,
            old(g).edges().len() + 2 * plan.pages@.len() <= u32::MAX,
        ensures
            module_wired(
                *old(g),
                *final(g),
                plan.pages@.map_values(|e: PagePlan| e.build_name_page@),
                plan.pages@.map_values(|e: PagePlan| e.deploy_name_page@),
                false,
                plan.build_name@,
                plan.deploy_name@,
                r,
            ),
    {
        let mut builds: Vec<String> = Vec::new();
        let mut deploys: Vec<String> = Vec::new();
        for i in 0..plan.pages.len()
            invariant
                string_views(builds@) == plan.pages@.take(i as int).map_values(|e: PagePlan| e.build_name_page@),
                string_views(deploys@) == plan.pages@.take(i as int).map_values(|e: PagePlan| e.deploy_name_page@),
        {
            let ghost (b0, d0) = (builds@, deploys@);
            let e = &plan.pages[i];
            let b = e.build_name_page.clone();
            let d = e.deploy_name_page.clone();
            builds.push(b);
            deploys.push(d);
            proof {
                assert(plan.pages@.take(i + 1) =~= plan.pages@.take(i as int).push(*e));
                assert(string_views(b0.push(b)) =~= string_views(b0).push(b@));
                assert(string_views(d0.push(d)) =~= string_views(d0).push(d@));
                assert(string_views(builds@) =~= plan.pages@.take(i + 1).map_values(|e: PagePlan| e.build_name_page@));
                assert(string_views(deploys@) =~= plan.pages@.take(i + 1).map_values(|e: PagePlan| e.deploy_name_page@));
            }
        }
        proof {
            assert(plan.pages@.take(plan.pages@.len() as int) =~= plan.pages@);
        }
        chain_module(g, builds, deploys, false, plan.build_name.clone(), plan.deploy_name.clone())
    }
}

/// Every command in `ms` is an output marker.
pub open spec fn only_output_markers(t: Seq<char>, ms: Seq<(int, int, int)>) -> bool {
    forall|i: int|
        0 <= i < ms.len() ==> (cmd_word(t, #[trigger] ms[i]) == word_output_begin() || cmd_word(
            t,
            ms[i],
        ) == word_output_end())
}

/// Pieces of text alone: nothing is pulled in.
pub open spec fn text_only(ps: Seq<PartView>) -> bool {
    forall|i: int| 0 <= i < ps.len() ==> #[trigger] ps[i] is Text
}

proof fn lemma_assemble_text_append(a: Seq<PartView>, b: Seq<PartView>)
    requires
        text_only(a),
        text_only(b),
    ensures
        spec_assemble(a + b, Seq::empty()) == spec_assemble(a, Seq::empty()) + spec_assemble(b, Seq::empty()),
        import_count(a + b) == import_count(a) + import_count(b),
    decreases a.len(),
{
    if a.len() == 0 {
        assert(a + b =~= b);
        assert(spec_assemble(a, Seq::empty()) + spec_assemble(b, Seq::empty()) =~= spec_assemble(b, Seq::empty()));
    } else {
        assert((a + b).drop_first() =~= a.drop_first() + b);
        assert((a + b)[0] == a[0]);
        assert(a[0] is Text);
        assert(text_only(a.drop_first())) by {
            assert forall|i: int| 0 <= i < a.drop_first().len() implies #[trigger] a.drop_first()[i] is Text by {
                assert(a.drop_first()[i] == a[i + 1]);
            }
        }
        lemma_assemble_text_append(a.drop_first(), b);
        let s = a[0]->Text_0;
        assert(spec_assemble(a + b, Seq::empty()) == s + spec_assemble(a.drop_first() + b, Seq::empty()));
        assert(spec_assemble(a, Seq::empty()) == s + spec_assemble(a.drop_first(), Seq::empty()));
        assert(s + (spec_assemble(a.drop_first(), Seq::empty()) + spec_assemble(b, Seq::empty()))
            =~= (s + spec_assemble(a.drop_first(), Seq::empty())) + spec_assemble(b, Seq::empty()));
    }
}

proof fn lemma_markers_expand_to_prefix(t: Seq<char>, ms: Seq<(int, int, int)>, d: Seq<char>, meta: ConfigMeta)
    requires
        is_chain(t, 0, ms),
        only_output_markers(t, ms),
    ensures
        text_only(parts_of(t, ms, d, meta)),
        0 <= chain_end(0, ms) <= t.len(),
        spec_assemble(parts_of(t, ms, d, meta), Seq::empty()) == t.subrange(0, chain_end(0, ms)),
    decreases ms.len(),
{
    if ms.len() == 0 {
        assert(t.subrange(0, 0) =~= Seq::<char>::empty());
    } else {
        let front = ms.drop_last();
        let m = ms.last();
        assert(only_output_markers(t, front)) by {
            assert forall|i: int| 0 <= i < front.len() implies (cmd_word(t, #[trigger] front[i]) == word_output_begin()
                || cmd_word(t, front[i]) == word_output_end()) by {
                assert(front[i] == ms[i]);
            }
        }
        lemma_markers_expand_to_prefix(t, front, d, meta);
        assert(candidate(t, m.0, m.1, m.2));
        assert(cmd_word(t, ms[ms.len() - 1]) == word_output_begin() || cmd_word(t, ms[ms.len() - 1]) == word_output_end());
        let p1 = parts_of(t, front, d, meta);
        let p2 = seq![PartView::Text(t.subrange(chain_end(0, front), m.0))];
        let p3 = command_part(t, m, d, meta);
        assert(p3 == seq![PartView::Text(t.subrange(m.0, cmd_end(m)))]);
        assert(text_only(p2));
        assert(text_only(p3));
        lemma_assemble_text_append(p1, p2);
        assert(text_only(p1 + p2)) by {
            assert forall|i: int| 0 <= i < (p1 + p2).len() implies #[trigger] (p1 + p2)[i] is Text by {
                if i < p1.len() {
                    assert((p1 + p2)[i] == p1[i]);
                }
            }
        }
        lemma_assemble_text_append(p1 + p2, p3);
        assert(parts_of(t, ms, d, meta) == p1 + p2 + p3);
        assert(text_only(p1 + p2 + p3)) by {
            assert forall|i: int| 0 <= i < (p1 + p2 + p3).len() implies #[trigger] (p1 + p2 + p3)[i] is Text by {
                if i < (p1 + p2).len() {
                    assert((p1 + p2 + p3)[i] == (p1 + p2)[i]);
                }
            }
        }
        lemma_assemble_single_text(t.subrange(chain_end(0, front), m.0));
        lemma_assemble_single_text(t.subrange(m.0, cmd_end(m)));
        assert(t.subrange(0, chain_end(0, front)) + t.subrange(chain_end(0, front), m.0) + t.subrange(
            m.0,
            cmd_end(m),
        ) =~= t.subrange(0, cmd_end(m)));
    }
}

/// A template whose commands are all output markers expands to itself, and pulls
/// nothing in.
pub proof fn lemma_marked_template_unchanged(t: Seq<char>, template_dirname: Seq<char>, meta: ConfigMeta)
    requires
        only_output_markers(t, cmd_matches(t)),
    ensures
        import_count(spec_template_parts(t, template_dirname, meta)) == 0,
        spec_assemble(spec_template_parts(t, template_dirname, meta), Seq::empty()) == t,
{
    let ms = cmd_matches(t);
    lemma_cmd_matches_complete(t);
    lemma_markers_expand_to_prefix(t, ms, template_dirname, meta);
    let p1 = parts_of(t, ms, template_dirname, meta);
    let p2 = seq![PartView::Text(t.subrange(chain_end(0, ms), t.len() as int))];
    assert(text_only(p2));
    lemma_assemble_text_append(p1, p2);
    lemma_text_only_no_imports(p1 + p2);
    lemma_assemble_single_text(t.subrange(chain_end(0, ms), t.len() as int));
    assert(t.subrange(0, chain_end(0, ms)) + t.subrange(chain_end(0, ms), t.len() as int) =~= t);
}

proof fn lemma_assemble_single_text(s: Seq<char>)
    ensures
        spec_assemble(seq![PartView::Text(s)], Seq::empty()) == s,
{
    let p = seq![PartView::Text(s)];
    assert(p.drop_first() =~= Seq::<PartView>::empty());
    assert(spec_assemble(p.drop_first(), Seq::empty()) == Seq::<char>::empty());
    assert(s + Seq::<char>::empty() =~= s);
}

proof fn lemma_text_only_no_imports(ps: Seq<PartView>)
    requires
        text_only(ps),
    ensures
        import_count(ps) == 0,
    decreases ps.len(),
{
    if ps.len() > 0 {
        assert(ps[0] is Text);
        assert(text_only(ps.drop_first())) by {
            assert forall|i: int| 0 <= i < ps.drop_first().len() implies #[trigger] ps.drop_first()[i] is Text by {
                assert(ps.drop_first()[i] == ps[i + 1]);
            }
        }
        lemma_text_only_no_imports(ps.drop_first());
    }
}


/// The command `m` is an `import` or an `import-js`.
pub open spec fn is_import_command(t: Seq<char>, m: (int, int, int)) -> bool {
    cmd_word(t, m) == word_import() || cmd_word(t, m) == word_import_js()
}

/// A template's imports can all be expanded exactly when the argument of each starts
/// with a one-byte (ASCII) character: the rest of an argument may hold any characters.
pub proof fn lemma_imports_readable_iff_ascii_start(t: Seq<char>)
    ensures
        imports_well_formed(t) <==> forall|i: int|
            0 <= i < cmd_matches(t).len() && is_import_command(t, #[trigger] cmd_matches(t)[i])
                ==> (cmd_arg(t, cmd_matches(t)[i])[0] as u32) < 128,
{
    lemma_cmd_matches_complete(t);
    let ms = cmd_matches(t);
    assert forall|i: int| 0 <= i < ms.len() implies cmd_arg(t, #[trigger] ms[i]).len() > 0 by {
        lemma_nth_match(t, ms, i);
    }
}

/// The page that `f` is, cut out of `t` under `out_prefix`: for an `output-begin <file>`
/// command and a later `output-end <file>` command, it is saved at `<page_dir>/<file>`
/// and holds the UTF-8 encoding of the text between the end of the first and the start
/// of the second.
pub open spec fn page_between_markers(t: Seq<char>, f: FileView, page_dir: Seq<char>, out_prefix: Seq<char>) -> bool {
    &&& f.out_path == out_prefix
    &&& valid_utf8(f.data)
    &&& exists|j: int, i: int|
        #![trigger cmd_matches(t)[j], cmd_matches(t)[i]]
        0 <= j < i < cmd_matches(t).len() && cmd_word(t, cmd_matches(t)[j]) == word_output_begin()
            && cmd_word(t, cmd_matches(t)[i]) == word_output_end() && cmd_arg(t, cmd_matches(t)[j])
            == cmd_arg(t, cmd_matches(t)[i]) && f.rel_path == spec_join(page_dir, cmd_arg(t, cmd_matches(t)[i]))
            && decode_utf8(f.data) == t.subrange(cmd_end(cmd_matches(t)[j]), cmd_matches(t)[i].0)
}

proof fn lemma_outputs_between_markers(t: Seq<char>, k: int, page_dir: Seq<char>, out_prefix: Seq<char>)
    requires
        is_match_list(t, 0, cmd_matches(t)),
        0 <= k <= cmd_matches(t).len(),
    ensures
        forall|x: int|
            0 <= x < outputs_of(t, cmd_matches(t), k, page_dir, out_prefix).len() ==> page_between_markers(
                t,
                #[trigger] outputs_of(t, cmd_matches(t), k, page_dir, out_prefix)[x],
                page_dir,
                out_prefix,
            ),
    decreases k,
{
    let ms = cmd_matches(t);
    if k > 0 {
        lemma_outputs_between_markers(t, k - 1, page_dir, out_prefix);
        let prev = outputs_of(t, ms, k - 1, page_dir, out_prefix);
        let m = ms[k - 1];
        if cmd_word(t, m) == word_output_end() {
            lemma_begin_before(t, ms, k - 1, cmd_arg(t, m));
            match begin_before(t, ms, k - 1, cmd_arg(t, m)) {
                Some(j) => {
                    let text = t.subrange(cmd_end(ms[j]), m.0);
                    encode_utf8_valid_utf8(text);
                    encode_utf8_decode_utf8(text);
                    let cur = outputs_of(t, ms, k, page_dir, out_prefix);
                    assert forall|x: int| 0 <= x < cur.len() implies page_between_markers(
                        t,
                        #[trigger] cur[x],
                        page_dir,
                        out_prefix,
                    ) by {
                        if x < prev.len() {
                            assert(cur[x] == prev[x]);
                        } else {
                            assert(ms[j] == ms[j] && ms[k - 1] == ms[k - 1]);
                        }
                    }
                },
                None => {},
            }
        }
    }
}

/// Every page cut out of an expanded template is the text between an `output-begin`
/// and a later `output-end` for the same file, encoded as UTF-8 (see
/// `page_between_markers`): its bytes decode back to exactly that text.
pub proof fn lemma_output_pages_hold_marked_text(t: Seq<char>, page_dir: Seq<char>, out_prefix: Seq<char>)
    ensures
        forall|x: int|
            0 <= x < spec_output_files(t, page_dir, out_prefix).len() ==> page_between_markers(
                t,
                #[trigger] spec_output_files(t, page_dir, out_prefix)[x],
                page_dir,
                out_prefix,
            ),
{
    lemma_cmd_matches_complete(t);
    lemma_outputs_between_markers(t, cmd_matches(t).len() as int, page_dir, out_prefix);
}

} // verus!
