//! What a child process is given: environment, arguments, working directory
//! and standard streams.

use crate::number;
use crate::number::parse_u32;
use crate::paths;
use crate::paths::join;
use crate::text;
use crate::text::{
    chars_of, char_is_digit, char_is_letter, debug_text, find, lines, same, split_once, string_of,
    strip_prefix, trim,
};
use crate::text_map::TextMap;
use crate::unit::env;
use crate::unit::env::{EnvironmentFile, EnvironmentFileView};
use crate::unit::exec::{copy_strings, ExecCommand, ExecFlags, ExecView};
use crate::unit::service::{ServiceUnit, ServiceView, StandardStream, StreamView};
use vstd::prelude::*;
use vstd::slice::slice_subrange;

verus! {

// ---------------------------------------------------------------------
// Variables
// ---------------------------------------------------------------------

/// The value of a variable; an unknown one is empty.
pub open spec fn value_of(env: Map<Seq<char>, Seq<char>>, k: Seq<char>) -> Seq<char> {
    if env.contains_key(k) {
        env[k]
    } else {
        seq![]
    }
}

/// Whether a character may begin the name of a variable.
pub open spec fn begins_name(c: char) -> bool {
    c == '_' || text::is_letter(c)
}

/// The number of characters at the start of a text that make a name.
pub open spec fn name_len(s: Seq<char>) -> int
    decreases s.len(),
{
    if s.len() == 0 || !(begins_name(s[0]) || text::is_digit(s[0])) {
        0
    } else {
        1 + name_len(s.skip(1))
    }
}

/// A text with `${VAR}` and `$VAR` replaced by the values of the variables. A
/// brace that is not closed reaches to the end; a dollar sign before anything
/// else stands for itself.
pub open spec fn expanded(s: Seq<char>, env: Map<Seq<char>, Seq<char>>) -> Seq<char>
    decreases s.len(),
{
    if s.len() == 0 {
        seq![]
    } else if s[0] != '$' {
        seq![s[0]] + expanded(s.skip(1), env)
    } else if s.len() > 1 && s[1] == '{' {
        let body = s.skip(2);
        let n = text::first_index(body, '}');
        if 0 <= n < body.len() {
            value_of(env, body.take(n)) + expanded(body.skip(n + 1), env)
        } else {
            value_of(env, body)
        }
    } else if s.len() > 1 && begins_name(s[1]) {
        let body = s.skip(1);
        let n = name_len(body);
        if 0 <= n <= body.len() {
            value_of(env, body.take(n)) + expanded(body.skip(n), env)
        } else {
            seq![]
        }
    } else {
        seq!['$'] + expanded(s.skip(1), env)
    }
}

proof fn lemma_name_len(s: Seq<char>)
    ensures
        0 <= name_len(s) <= s.len(),
    decreases s.len(),
{
    if s.len() > 0 {
        lemma_name_len(s.skip(1));
    }
}

fn name_run(s: &[char], from: usize) -> (r: usize)
    requires
        from <= s@.len(),
    ensures
        from <= r <= s@.len(),
        r - from == name_len(s@.skip(from as int)),
{
    let mut i: usize = from;
    while i < s.len() && (s[i] == '_' || char_is_letter(s[i]) || char_is_digit(s[i]))
        invariant
            from <= i <= s.len(),
            name_len(s@.skip(from as int)) == i - from + name_len(s@.skip(i as int)),
        decreases s.len() - i,
    {
        proof {
            assert(s@.skip(i as int).skip(1) =~= s@.skip(i + 1));
        }
        i = i + 1;
    }
    i
}

fn append_value(out: &mut String, env: &TextMap, name: &[char])
    ensures
        final(out)@ == old(out)@ + value_of(env@, name@),
{
    let k = string_of(name);
    if let Some(v) = env.get(k.as_str()) {
        out.append(v.as_str());
    }
    proof {
        assert(old(out)@ + Seq::<char>::empty() =~= old(out)@);
    }
}

/// Expand `${VAR}` and `$VAR` against `env`. Unknown vars expand to empty.
pub fn expand_vars(input: &str, env: &TextMap) -> (r: String)
    ensures
        r@ == expanded(input@, env@),
{
    let v = chars_of(input);
    let s = v.as_slice();
    let mut out = String::new();
    let mut i: usize = 0;
    proof {
        assert(s@.skip(0) =~= s@);
        assert(out@ + expanded(s@, env@) =~= expanded(s@, env@));
    }
    while i < s.len()
        invariant
            i <= s.len(),
            out@ + expanded(s@.skip(i as int), env@) == expanded(s@, env@),
        decreases s.len() - i,
    {
        let ghost rest = s@.skip(i as int);
        let ghost done = out@;
        if s[i] != '$' {
            out.push(s[i]);
            proof {
                assert(rest.skip(1) =~= s@.skip(i + 1));
                assert(done + (seq![s@[i as int]] + expanded(s@.skip(i + 1), env@)) =~= done.push(
                    s@[i as int],
                ) + expanded(s@.skip(i + 1), env@));
            }
            i = i + 1;
        } else if i + 1 < s.len() && s[i + 1] == '{' {
            let body = slice_subrange(s, i + 2, s.len());
            let n = find(body, '}');
            let name = slice_subrange(body, 0, n);
            append_value(&mut out, env, name);
            proof {
                text::lemma_first_index(body@, '}');
                assert(body@ =~= rest.skip(2));
                assert(name@ =~= body@.take(n as int));
            }
            if n < body.len() {
                proof {
                    assert(body@.skip(n + 1) =~= s@.skip(i + 2 + n + 1));
                    assert(done + (value_of(env@, name@) + expanded(body@.skip(n + 1), env@))
                        =~= out@ + expanded(s@.skip(i + 2 + n + 1), env@));
                }
                i = i + 2 + n + 1;
            } else {
                proof {
                    assert(name@ =~= body@);
                    assert(s@.skip(s@.len() as int) =~= seq![]);
                    assert(out@ + expanded(s@.skip(s@.len() as int), env@) =~= out@);
                }
                i = s.len();
            }
        } else if i + 1 < s.len() && (s[i + 1] == '_' || char_is_letter(s[i + 1])) {
            let end = name_run(s, i + 1);
            let name = slice_subrange(s, i + 1, end);
            append_value(&mut out, env, name);
            proof {
                let body = rest.skip(1);
                assert(body =~= s@.skip(i + 1));
                assert(name@ =~= body.take(end - i - 1));
                assert(body.skip(end - i - 1) =~= s@.skip(end as int));
                assert(done + (value_of(env@, name@) + expanded(s@.skip(end as int), env@))
                    =~= out@ + expanded(s@.skip(end as int), env@));
                lemma_name_len(body.skip(1));
                assert(name_len(body) >= 1);
            }
            i = end;
        } else {
            out.push('$');
            proof {
                assert(rest.skip(1) =~= s@.skip(i + 1));
                assert(done + (seq!['$'] + expanded(s@.skip(i + 1), env@)) =~= done.push('$')
                    + expanded(s@.skip(i + 1), env@));
            }
            i = i + 1;
        }
    }
    proof {
        assert(s@.skip(i as int) =~= seq![]);
        assert(out@ + expanded(s@.skip(i as int), env@) =~= out@);
    }
    out
}

/// A text without a dollar sign is left as it is.
pub proof fn nothing_to_expand(s: Seq<char>, env: Map<Seq<char>, Seq<char>>)
    requires
        !s.contains('$'),
    ensures
        expanded(s, env) == s,
    decreases s.len(),
{
    if s.len() > 0 {
        let t = s.skip(1);
        assert(s[0] != '$');
        assert(!t.contains('$')) by {
            if t.contains('$') {
                let k = choose|k: int| 0 <= k < t.len() && t[k] == '$';
                assert(s[k + 1] == '$');
            }
        }
        nothing_to_expand(t, env);
        assert(seq![s[0]] + t =~= s);
    }
}

/// The arguments of a command with its variables replaced, unless its flags say
/// otherwise.
pub open spec fn argv_of(c: ExecView, env: Map<Seq<char>, Seq<char>>) -> Seq<Seq<char>> {
    if c.flags & ExecFlags::NO_ENV_SUBST == ExecFlags::NO_ENV_SUBST {
        c.argv
    } else {
        c.argv.map_values(|a: Seq<char>| expanded(a, env))
    }
}

/// Apply variable substitution to argv, except when `NO_ENV_SUBST` is set.
pub fn substitute_argv(cmd: &ExecCommand, env: &TextMap) -> (r: Vec<String>)
    ensures
        text::texts(r@) == argv_of(cmd@, env@),
{
    if cmd.flags.contains(ExecFlags::NO_ENV_SUBST) {
        return copy_strings(&cmd.argv);
    }
    let mut out: Vec<String> = Vec::new();
    let mut i: usize = 0;
    let ghost all = text::texts(cmd.argv@).map_values(|a: Seq<char>| expanded(a, env@));
    proof {
        assert(text::texts(out@) =~= all.take(0));
    }
    while i < cmd.argv.len()
        invariant
            i <= cmd.argv.len(),
            all == text::texts(cmd.argv@).map_values(|a: Seq<char>| expanded(a, env@)),
            text::texts(out@) == all.take(i as int),
        decreases cmd.argv.len() - i,
    {
        let ghost before = out@;
        out.push(expand_vars(cmd.argv[i].as_str(), env));
        proof {
            assert(text::texts(out@) =~= text::texts(before).push(all[i as int]));
            assert(all.take(i + 1) =~= all.take(i as int).push(all[i as int]));
        }
        i = i + 1;
    }
    proof {
        assert(all.take(all.len() as int) =~= all);
    }
    out
}

// ---------------------------------------------------------------------
// Environment
// ---------------------------------------------------------------------

/// A value without the quotes around it.
pub open spec fn unquoted(v: Seq<char>) -> Seq<char> {
    if v.len() >= 2 && ((v[0] == '"' && v.last() == '"') || (v[0] == '\'' && v.last() == '\'')) {
        v.subrange(1, v.len() - 1)
    } else {
        v
    }
}

/// The variable that a line of an environment file sets.
pub open spec fn env_line(line: Seq<char>) -> Option<(Seq<char>, Seq<char>)> {
    let t = text::trimmed(line);
    if t.len() == 0 || t[0] == '#' {
        None
    } else {
        match text::split_at_first(t, '=') {
            None => None,
            Some((k, v)) => Some((text::trimmed(k), unquoted(text::trimmed(v)))),
        }
    }
}

/// An environment after the lines of a file.
pub open spec fn with_lines(
    env: Map<Seq<char>, Seq<char>>,
    ls: Seq<Seq<char>>,
) -> Map<Seq<char>, Seq<char>>
    decreases ls.len(),
{
    if ls.len() == 0 {
        env
    } else {
        let before = with_lines(env, ls.drop_last());
        match env_line(ls.last()) {
            Some((k, v)) => before.insert(k, v),
            None => before,
        }
    }
}

/// An environment after a file.
pub open spec fn with_file(env: Map<Seq<char>, Seq<char>>, contents: Seq<char>) -> Map<
    Seq<char>,
    Seq<char>,
> {
    with_lines(env, text::lines_of(contents))
}

/// Sets the variables that an environment file sets; lines that set none are
/// ignored.
pub fn load_env_file(contents: &str, env: &mut TextMap)
    ensures
        final(env)@ == with_file(old(env)@, contents@),
{
    let v = chars_of(contents);
    let ls = lines(v.as_slice());
    let ghost all = text::slices(ls@);
    let ghost env0 = env@;
    let mut i: usize = 0;
    while i < ls.len()
        invariant
            i <= ls.len(),
            all == text::slices(ls@),
            env@ == with_lines(env0, all.take(i as int)),
        decreases ls.len() - i,
    {
        proof {
            assert(all.take(i + 1).drop_last() =~= all.take(i as int));
            assert(all.take(i + 1).last() == ls@[i as int]@);
        }
        let t = trim(ls[i]);
        if t.len() > 0 && t[0] != '#' {
            if let Some((k, v)) = split_once(t, '=') {
                let v = trim(v);
                let n = v.len();
                let quoted = n >= 2 && ((v[0] == '"' && v[n - 1] == '"') || (v[0] == '\'' && v[n
                    - 1] == '\''));
                let value = if quoted { slice_subrange(v, 1, n - 1) } else { v };
                env.insert(string_of(trim(k)).as_str(), string_of(value).as_str());
            }
        }
        i = i + 1;
    }
    proof {
        assert(all.take(all.len() as int) =~= all);
    }
}

/// An environment with the named variables of another, where that has them.
pub open spec fn inherited(parent: Map<Seq<char>, Seq<char>>, names: Seq<Seq<char>>) -> Map<
    Seq<char>,
    Seq<char>,
>
    decreases names.len(),
{
    if names.len() == 0 {
        Map::empty()
    } else {
        let before = inherited(parent, names.drop_last());
        if parent.contains_key(names.last()) {
            before.insert(names.last(), parent[names.last()])
        } else {
            before
        }
    }
}

/// An environment after several files, of which some may be absent.
pub open spec fn with_files(
    env: Map<Seq<char>, Seq<char>>,
    files: Seq<Option<Seq<char>>>,
) -> Map<Seq<char>, Seq<char>>
    decreases files.len(),
{
    if files.len() == 0 {
        env
    } else {
        let before = with_files(env, files.drop_last());
        match files.last() {
            Some(c) => with_file(before, c),
            None => before,
        }
    }
}

/// An environment with variables set one after the other; each value is
/// expanded against what is set before it.
pub open spec fn with_assignments(
    env: Map<Seq<char>, Seq<char>>,
    ps: Seq<(Seq<char>, Seq<char>)>,
) -> Map<Seq<char>, Seq<char>>
    decreases ps.len(),
{
    if ps.len() == 0 {
        env
    } else {
        let before = with_assignments(env, ps.drop_last());
        before.insert(ps.last().0, expanded(ps.last().1, before))
    }
}

/// An environment without the named variables.
pub open spec fn without_names(env: Map<Seq<char>, Seq<char>>, names: Seq<Seq<char>>) -> Map<
    Seq<char>,
    Seq<char>,
>
    decreases names.len(),
{
    if names.len() == 0 {
        env
    } else {
        without_names(env, names.drop_last()).remove(names.last())
    }
}

/// The contents of environment files.
pub open spec fn contents_view(v: Seq<Option<String>>) -> Seq<Option<Seq<char>>> {
    v.map_values(|c: Option<String>| text::opt_text(c))
}

/// The environment of a service: what it passes on from the parent, then its
/// environment files, then its own assignments, without what it unsets.
pub open spec fn environment_for(
    svc: ServiceView,
    parent: Map<Seq<char>, Seq<char>>,
    files: Seq<Option<Seq<char>>>,
) -> Map<Seq<char>, Seq<char>> {
    without_names(
        with_assignments(
            with_files(inherited(parent, svc.pass_environment), files),
            svc.environment,
        ),
        svc.unset_environment,
    )
}

/// What reading an environment file gave.
#[derive(Debug, PartialEq, Eq)]
pub enum FileRead {
    /// What it holds.
    Contents(String),
    /// There is no such file, and the message that says so.
    Absent(String),
    /// It could not be read, and why.
    Failed(String),
}

/// A [`FileRead`] by its characters.
pub enum FileReadView {
    Contents(Seq<char>),
    Absent(Seq<char>),
    Failed(Seq<char>),
}

impl View for FileRead {
    type V = FileReadView;

    open spec fn view(&self) -> FileReadView {
        match *self {
            FileRead::Contents(s) => FileReadView::Contents(s@),
            FileRead::Absent(e) => FileReadView::Absent(e@),
            FileRead::Failed(e) => FileReadView::Failed(e@),
        }
    }
}

/// The views of what reading files gave.
pub open spec fn reads_view(v: Seq<FileRead>) -> Seq<FileReadView> {
    v.map_values(|r: FileRead| r@)
}

/// What is said of an environment file that could not be read.
pub open spec fn unreadable(path: Seq<char>, e: Seq<char>) -> Seq<char> {
    "EnvironmentFile "@ + text::debug_form(path) + " read failed: "@ + e
}

/// The contents of an environment file, or nothing where an optional one is
/// absent; every other failure is an error.
pub open spec fn contents_of(f: EnvironmentFileView, r: FileReadView) -> Result<
    Option<Seq<char>>,
    Seq<char>,
> {
    match r {
        FileReadView::Contents(s) => Ok(Some(s)),
        FileReadView::Absent(e) => if f.optional {
            Ok(None)
        } else {
            Err(unreadable(f.path, e))
        },
        FileReadView::Failed(e) => Err(unreadable(f.path, e)),
    }
}

/// The contents of environment files, or the first failure.
pub open spec fn all_contents(fs: Seq<EnvironmentFileView>, rs: Seq<FileReadView>) -> Result<
    Seq<Option<Seq<char>>>,
    Seq<char>,
>
    decreases fs.len(),
{
    if fs.len() == 0 {
        Ok(seq![])
    } else {
        match all_contents(fs.drop_last(), rs.drop_last()) {
            Err(e) => Err(e),
            Ok(cs) => match contents_of(fs.last(), rs.last()) {
                Err(e) => Err(e),
                Ok(c) => Ok(cs.push(c)),
            },
        }
    }
}

/// The environment of a service, given what reading its environment files gave.
pub open spec fn environment_from(
    svc: ServiceView,
    parent: Map<Seq<char>, Seq<char>>,
    reads: Seq<FileReadView>,
) -> Result<Map<Seq<char>, Seq<char>>, Seq<char>> {
    match all_contents(svc.environment_files, reads) {
        Err(e) => Err(e),
        Ok(cs) => Ok(environment_for(svc, parent, cs)),
    }
}

/// The view of an environment or of why there is none.
pub open spec fn environment_result(r: Result<TextMap, String>) -> Result<
    Map<Seq<char>, Seq<char>>,
    Seq<char>,
> {
    match r {
        Ok(m) => Ok(m@),
        Err(e) => Err(e@),
    }
}

fn unreadable_text(path: &str, e: &str) -> (r: String)
    ensures
        r@ == unreadable(path@, e@),
{
    let mut s = "EnvironmentFile ".to_owned();
    s.append(debug_text(path).as_str());
    s.append(" read failed: ");
    s.append(e);
    s
}

/// Decides what reading an environment file comes to: a leading `-` silently
/// absorbs a missing file, and nothing else.
pub fn file_contents(f: &EnvironmentFile, read: &FileRead) -> (r: Result<Option<String>, String>)
    ensures
        match r {
            Ok(c) => contents_of(f@, read@) == Ok::<Option<Seq<char>>, Seq<char>>(
                text::opt_text(c),
            ),
            Err(e) => contents_of(f@, read@) == Err::<Option<Seq<char>>, Seq<char>>(e@),
        },
{
    match read {
        FileRead::Contents(s) => Ok(Some(s.clone())),
        FileRead::Absent(e) => if f.optional {
            Ok(None)
        } else {
            Err(unreadable_text(f.path.as_str(), e.as_str()))
        },
        FileRead::Failed(e) => Err(unreadable_text(f.path.as_str(), e.as_str())),
    }
}

proof fn lemma_contents_error(fs: Seq<EnvironmentFileView>, rs: Seq<FileReadView>, n: int)
    requires
        0 <= n <= fs.len(),
        fs.len() == rs.len(),
        all_contents(fs.take(n), rs.take(n)) is Err,
    ensures
        all_contents(fs, rs) == all_contents(fs.take(n), rs.take(n)),
    decreases fs.len() - n,
{
    if n == fs.len() {
        assert(fs.take(n) =~= fs);
        assert(rs.take(n) =~= rs);
    } else {
        assert(fs.take(n + 1).drop_last() =~= fs.take(n));
        assert(rs.take(n + 1).drop_last() =~= rs.take(n));
        lemma_contents_error(fs, rs, n + 1);
    }
}

fn gather(files: &Vec<EnvironmentFile>, reads: &Vec<FileRead>) -> (r: Result<
    Vec<Option<String>>,
    String,
>)
    requires
        files@.len() == reads@.len(),
    ensures
        match r {
            Ok(cs) => all_contents(env::environment_files_view(files@), reads_view(reads@)) == Ok::<
                Seq<Option<Seq<char>>>,
                Seq<char>,
            >(contents_view(cs@)),
            Err(e) => all_contents(env::environment_files_view(files@), reads_view(reads@))
                == Err::<Seq<Option<Seq<char>>>, Seq<char>>(e@),
        },
{
    let ghost fs = env::environment_files_view(files@);
    let ghost rs = reads_view(reads@);
    let mut out: Vec<Option<String>> = Vec::new();
    let mut i: usize = 0;
    proof {
        assert(contents_view(out@) =~= seq![]);
    }
    while i < files.len()
        invariant
            i <= files.len(),
            files@.len() == reads@.len(),
            fs == env::environment_files_view(files@),
            rs == reads_view(reads@),
            all_contents(fs.take(i as int), rs.take(i as int)) == Ok::<
                Seq<Option<Seq<char>>>,
                Seq<char>,
            >(contents_view(out@)),
        decreases files.len() - i,
    {
        proof {
            assert(fs.take(i + 1).drop_last() =~= fs.take(i as int));
            assert(rs.take(i + 1).drop_last() =~= rs.take(i as int));
            assert(fs.take(i + 1).last() == files@[i as int]@);
            assert(rs.take(i + 1).last() == reads@[i as int]@);
        }
        let ghost before = out@;
        match file_contents(&files[i], &reads[i]) {
            Err(e) => {
                proof {
                    lemma_contents_error(fs, rs, i + 1);
                }
                return Err(e);
            },
            Ok(c) => {
                let ghost shown = text::opt_text(c);
                out.push(c);
                proof {
                    assert(contents_view(out@) =~= contents_view(before).push(shown));
                }
            },
        }
        i = i + 1;
    }
    proof {
        assert(fs.take(fs.len() as int) =~= fs);
        assert(rs.take(rs.len() as int) =~= rs);
    }
    Ok(out)
}

fn inherit(parent: &TextMap, names: &Vec<String>) -> (r: TextMap)
    ensures
        r@ == inherited(parent@, text::texts(names@)),
{
    let mut env = TextMap::new();
    let ghost all = text::texts(names@);
    let mut i: usize = 0;
    while i < names.len()
        invariant
            i <= names.len(),
            all == text::texts(names@),
            env@ == inherited(parent@, all.take(i as int)),
        decreases names.len() - i,
    {
        proof {
            assert(all.take(i + 1).drop_last() =~= all.take(i as int));
            assert(all.take(i + 1).last() == names@[i as int]@);
        }
        if let Some(v) = parent.get(names[i].as_str()) {
            env.insert(names[i].as_str(), v.as_str());
        }
        i = i + 1;
    }
    proof {
        assert(all.take(all.len() as int) =~= all);
    }
    env
}

fn load_files(env: &mut TextMap, files: &Vec<Option<String>>)
    ensures
        final(env)@ == with_files(old(env)@, contents_view(files@)),
{
    let ghost all = contents_view(files@);
    let ghost env0 = env@;
    let mut i: usize = 0;
    while i < files.len()
        invariant
            i <= files.len(),
            all == contents_view(files@),
            env@ == with_files(env0, all.take(i as int)),
        decreases files.len() - i,
    {
        proof {
            assert(all.take(i + 1).drop_last() =~= all.take(i as int));
            assert(all.take(i + 1).last() == text::opt_text(files@[i as int]));
        }
        if let Some(c) = &files[i] {
            load_env_file(c.as_str(), env);
        }
        i = i + 1;
    }
    proof {
        assert(all.take(all.len() as int) =~= all);
    }
}

fn assign(env: &mut TextMap, ps: &Vec<(String, String)>)
    ensures
        final(env)@ == with_assignments(old(env)@, env::pairs_view(ps@)),
{
    let ghost all = env::pairs_view(ps@);
    let ghost env0 = env@;
    let mut i: usize = 0;
    while i < ps.len()
        invariant
            i <= ps.len(),
            all == env::pairs_view(ps@),
            env@ == with_assignments(env0, all.take(i as int)),
        decreases ps.len() - i,
    {
        proof {
            assert(all.take(i + 1).drop_last() =~= all.take(i as int));
            assert(all.take(i + 1).last() == (ps@[i as int].0@, ps@[i as int].1@));
        }
        let value = expand_vars(ps[i].1.as_str(), env);
        env.insert(ps[i].0.as_str(), value.as_str());
        i = i + 1;
    }
    proof {
        assert(all.take(all.len() as int) =~= all);
    }
}

fn unset(env: &mut TextMap, names: &Vec<String>)
    ensures
        final(env)@ == without_names(old(env)@, text::texts(names@)),
{
    let ghost all = text::texts(names@);
    let ghost env0 = env@;
    let mut i: usize = 0;
    while i < names.len()
        invariant
            i <= names.len(),
            all == text::texts(names@),
            env@ == without_names(env0, all.take(i as int)),
        decreases names.len() - i,
    {
        proof {
            assert(all.take(i + 1).drop_last() =~= all.take(i as int));
            assert(all.take(i + 1).last() == names@[i as int]@);
        }
        env.remove(names[i].as_str());
        i = i + 1;
    }
    proof {
        assert(all.take(all.len() as int) =~= all);
    }
}

/// Resolve every relevant environment knob (`PassEnvironment=`,
/// `EnvironmentFile=`, `Environment=` with `${VAR}` substitution, then
/// `UnsetEnvironment=`). `parent` is the environment to pass variables on from;
/// `reads` holds what reading each of the environment files gave, in order.
pub fn resolve_environment(svc: &ServiceUnit, parent: &TextMap, reads: &Vec<FileRead>) -> (r: Result<
    TextMap,
    String,
>)
    requires
        reads@.len() == svc.environment_files@.len(),
    ensures
        environment_result(r) == environment_from(svc@, parent@, reads_view(reads@)),
{
    match gather(&svc.environment_files, reads) {
        Err(e) => Err(e),
        Ok(files) => {
            let mut env = inherit(parent, &svc.pass_environment);
            load_files(&mut env, &files);
            assign(&mut env, &svc.environment);
            unset(&mut env, &svc.unset_environment);
            Ok(env)
        },
    }
}

// ---------------------------------------------------------------------
// Directories and streams
// ---------------------------------------------------------------------

/// A `WorkingDirectory=` value with `~` and a leading `~/` resolved; `None`
/// where that needs a home directory and there is none.
pub open spec fn working_dir(p: Seq<char>, home: Option<Seq<char>>) -> Result<Seq<char>, Seq<char>> {
    if p == "~"@ {
        match home {
            Some(h) => Ok(h),
            None => Err("HOME not set; cannot expand ~"@),
        }
    } else {
        match text::without_prefix(p, "~/"@) {
            Some(rest) => match home {
                Some(h) => Ok(paths::joined(h, rest)),
                None => Err("HOME not set; cannot expand ~/"@),
            },
            None => Ok(p),
        }
    }
}

/// The view of a result whose both sides are text.
pub open spec fn text_result(r: Result<String, String>) -> Result<Seq<char>, Seq<char>> {
    match r {
        Ok(v) => Ok(v@),
        Err(e) => Err(e@),
    }
}

/// Resolve a `WorkingDirectory=` value handling `~` expansion and `~/foo`.
pub fn resolve_working_dir(p: &str, home: &Option<String>) -> (r: Result<String, String>)
    ensures
        text_result(r) == working_dir(p@, text::opt_text(*home)),
{
    if same(p, "~") {
        return match home {
            Some(h) => Ok(h.clone()),
            None => Err("HOME not set; cannot expand ~".to_owned()),
        };
    }
    let v = chars_of(p);
    match strip_prefix(v.as_slice(), "~/") {
        Some(rest) => match home {
            Some(h) => Ok(join(h.as_str(), string_of(rest).as_str())),
            None => Err("HOME not set; cannot expand ~/".to_owned()),
        },
        None => Ok(p.to_owned()),
    }
}

/// The file name of a unit's journal fallback.
pub open spec fn journal_file(unit: Seq<char>, which: Seq<char>) -> Seq<char> {
    unit + "."@ + which + ".log"@
}

/// Default journal directory below the daemon's state directory.
pub fn journal_dir(state_dir: &str) -> (r: String)
    ensures
        r@ == paths::joined(state_dir@, "journal"@),
{
    join(state_dir, "journal")
}

/// A stable journal-fallback path for the named unit.
pub fn fallback_journal_path(state_dir: &str, unit: &str, which: &str) -> (r: String)
    ensures
        r@ == paths::joined(paths::joined(state_dir@, "journal"@), journal_file(unit@, which@)),
{
    let mut file = unit.to_owned();
    file.append(".");
    file.append(which);
    file.append(".log");
    join(journal_dir(state_dir).as_str(), file.as_str())
}

/// What a standard stream of a child is connected to.
#[derive(Debug, PartialEq, Eq)]
pub enum Sink {
    /// The stream of the manager.
    Inherit,
    /// `/dev/null`.
    Null,
    /// `/dev/tty` where it can be opened, else the stream of the manager.
    Tty,
    /// A file, emptied first.
    Truncate(String),
    /// A file, written at its end.
    Append(String),
}

/// A [`Sink`] by its characters.
pub enum SinkView {
    Inherit,
    Null,
    Tty,
    Truncate(Seq<char>),
    Append(Seq<char>),
}

impl View for Sink {
    type V = SinkView;

    open spec fn view(&self) -> SinkView {
        match *self {
            Sink::Inherit => SinkView::Inherit,
            Sink::Null => SinkView::Null,
            Sink::Tty => SinkView::Tty,
            Sink::Truncate(p) => SinkView::Truncate(p@),
            Sink::Append(p) => SinkView::Append(p@),
        }
    }
}

/// What a standard stream is connected to. A socket or a named descriptor is
/// connected later, and is `/dev/null` until then; the journal and the
/// Linux-only sinks go to a file in the journal directory.
pub open spec fn sink_of(
    s: StreamView,
    unit: Seq<char>,
    which: Seq<char>,
    state_dir: Option<Seq<char>>,
) -> Result<SinkView, Seq<char>> {
    match s {
        StreamView::Inherit => Ok(SinkView::Inherit),
        StreamView::Null | StreamView::Socket | StreamView::Fd(_) => Ok(SinkView::Null),
        StreamView::Tty => Ok(SinkView::Tty),
        StreamView::File(p) => Ok(SinkView::Truncate(p)),
        StreamView::Truncate(p) => Ok(SinkView::Truncate(p)),
        StreamView::Append(p) => Ok(SinkView::Append(p)),
        StreamView::Journal(_) | StreamView::LinuxOnly(_) => match state_dir {
            Some(d) => Ok(
                SinkView::Append(
                    paths::joined(paths::joined(d, "journal"@), journal_file(unit, which)),
                ),
            ),
            None => Err("no $XDG_STATE_HOME for journal"@),
        },
    }
}

/// The view of a sink or of why there is none.
pub open spec fn sink_result(r: Result<Sink, String>) -> Result<SinkView, Seq<char>> {
    match r {
        Ok(s) => Ok(s@),
        Err(e) => Err(e@),
    }
}

/// Decides what a standard stream is connected to. `which` names the stream in
/// the fallback file.
pub fn stream_sink(
    stream: &StandardStream,
    unit: &str,
    which: &str,
    state_dir: &Option<String>,
) -> (r: Result<Sink, String>)
    ensures
        sink_result(r) == sink_of(stream@, unit@, which@, text::opt_text(*state_dir)),
{
    match stream {
        StandardStream::Inherit => Ok(Sink::Inherit),
        StandardStream::Null => Ok(Sink::Null),
        StandardStream::Socket => Ok(Sink::Null),
        StandardStream::Fd(_) => Ok(Sink::Null),
        StandardStream::Tty => Ok(Sink::Tty),
        StandardStream::File(p) => Ok(Sink::Truncate(p.clone())),
        StandardStream::Truncate(p) => Ok(Sink::Truncate(p.clone())),
        StandardStream::Append(p) => Ok(Sink::Append(p.clone())),
        StandardStream::Journal(_) | StandardStream::LinuxOnly(_) => match state_dir {
            Some(d) => Ok(Sink::Append(fallback_journal_path(d.as_str(), unit, which))),
            None => Err("no $XDG_STATE_HOME for journal".to_owned()),
        },
    }
}

// ---------------------------------------------------------------------
// Users and groups
// ---------------------------------------------------------------------

/// How an id is found.
#[derive(Debug, PartialEq, Eq)]
pub enum IdSource {
    /// None is set.
    Unset,
    /// It is given as a number.
    Number(u32),
    /// It is that of the user or group of this name.
    Named(String),
    /// It is the primary group of the user with this number.
    PrimaryOfNumber(u32),
    /// It is the primary group of the user of this name.
    PrimaryOfNamed(String),
}

/// An [`IdSource`] by its characters.
pub enum IdView {
    Unset,
    Number(u32),
    Named(Seq<char>),
    PrimaryOfNumber(u32),
    PrimaryOfNamed(Seq<char>),
}

impl View for IdSource {
    type V = IdView;

    open spec fn view(&self) -> IdView {
        match *self {
            IdSource::Unset => IdView::Unset,
            IdSource::Number(n) => IdView::Number(n),
            IdSource::Named(s) => IdView::Named(s@),
            IdSource::PrimaryOfNumber(n) => IdView::PrimaryOfNumber(n),
            IdSource::PrimaryOfNamed(s) => IdView::PrimaryOfNamed(s@),
        }
    }
}

/// How the id of a `User=` or `Group=` value is found.
pub open spec fn id_of(s: Seq<char>) -> IdView {
    match number::uint_of(s, 10, 0xffff_ffff) {
        Ok(n) => IdView::Number(n as u32),
        Err(_) => IdView::Named(s),
    }
}

/// How the user id of a service is found.
pub open spec fn user_id(user: Option<Seq<char>>) -> IdView {
    match user {
        Some(u) => id_of(u),
        None => IdView::Unset,
    }
}

/// How the group id of a service is found: that of its group, else the primary
/// group of its user.
pub open spec fn group_id(user: Option<Seq<char>>, group: Option<Seq<char>>) -> IdView {
    match group {
        Some(g) => id_of(g),
        None => match user {
            None => IdView::Unset,
            Some(u) => match number::uint_of(u, 10, 0xffff_ffff) {
                Ok(n) => IdView::PrimaryOfNumber(n as u32),
                Err(_) => IdView::PrimaryOfNamed(u),
            },
        },
    }
}

fn id_source(s: &str) -> (r: IdSource)
    ensures
        r@ == id_of(s@),
{
    let v = chars_of(s);
    match parse_u32(v.as_slice()) {
        Ok(n) => IdSource::Number(n),
        Err(_) => IdSource::Named(s.to_owned()),
    }
}

/// How the uid/gid pair for `User=`/`Group=` strings is found.
pub fn lookup_user_group(user: &Option<String>, group: &Option<String>) -> (r: (IdSource, IdSource))
    ensures
        r.0@ == user_id(text::opt_text(*user)),
        r.1@ == group_id(text::opt_text(*user), text::opt_text(*group)),
{
    let uid = match user {
        Some(u) => id_source(u.as_str()),
        None => IdSource::Unset,
    };
    let gid = match group {
        Some(g) => id_source(g.as_str()),
        None => match user {
            None => IdSource::Unset,
            Some(u) => {
                let v = chars_of(u.as_str());
                match parse_u32(v.as_slice()) {
                    Ok(n) => IdSource::PrimaryOfNumber(n),
                    Err(_) => IdSource::PrimaryOfNamed(u.clone()),
                }
            },
        },
    };
    (uid, gid)
}

// ---------------------------------------------------------------------
// Commands
// ---------------------------------------------------------------------

/// How a child process is started.
pub struct CommandPlan {
    /// The file to run.
    pub program: String,
    /// What the child sees as its name, where that is not the program.
    pub arg0: Option<String>,
    /// The arguments behind the name.
    pub args: Vec<String>,
    /// Its whole environment.
    pub env: TextMap,
    /// Where the child runs.
    pub working_dir: Option<String>,
    /// Its standard input.
    pub stdin: Sink,
    /// Its standard output.
    pub stdout: Sink,
    /// Its standard error.
    pub stderr: Sink,
    /// The mask for new files.
    pub umask: Option<u32>,
    /// The user to run as.
    pub uid: IdSource,
    /// The group to run as.
    pub gid: IdSource,
}

/// A [`CommandPlan`] by its characters.
pub struct PlanView {
    pub program: Seq<char>,
    pub arg0: Option<Seq<char>>,
    pub args: Seq<Seq<char>>,
    pub env: Map<Seq<char>, Seq<char>>,
    pub working_dir: Option<Seq<char>>,
    pub stdin: SinkView,
    pub stdout: SinkView,
    pub stderr: SinkView,
    pub umask: Option<u32>,
    pub uid: IdView,
    pub gid: IdView,
}

impl View for CommandPlan {
    type V = PlanView;

    open spec fn view(&self) -> PlanView {
        PlanView {
            program: self.program@,
            arg0: text::opt_text(self.arg0),
            args: text::texts(self.args@),
            env: self.env@,
            working_dir: text::opt_text(self.working_dir),
            stdin: self.stdin@,
            stdout: self.stdout@,
            stderr: self.stderr@,
            umask: self.umask,
            uid: self.uid@,
            gid: self.gid@,
        }
    }
}

/// Where a service's child runs.
pub open spec fn plan_dir(svc: ServiceView, home: Option<Seq<char>>) -> Result<
    Option<Seq<char>>,
    Seq<char>,
> {
    match svc.working_directory {
        None => Ok(None),
        Some(p) => match working_dir(p, home) {
            Ok(d) => Ok(Some(d)),
            Err(e) => Err(e),
        },
    }
}

/// Whether a command has a flag.
pub open spec fn has_flag(c: ExecView, flag: u8) -> bool {
    c.flags & flag == flag
}

/// An environment with variables set one after the other, as they are.
pub open spec fn with_variables(
    env: Map<Seq<char>, Seq<char>>,
    ps: Seq<(Seq<char>, Seq<char>)>,
) -> Map<Seq<char>, Seq<char>>
    decreases ps.len(),
{
    if ps.len() == 0 {
        env
    } else {
        with_variables(env, ps.drop_last()).insert(ps.last().0, ps.last().1)
    }
}

/// The environment of a child: that of its service with more variables laid
/// over it, and nothing of the parent's.
pub fn child_environment(env: &TextMap, extra: &Vec<(String, String)>) -> (r: TextMap)
    ensures
        r@ == with_variables(env@, env::pairs_view(extra@)),
{
    let mut out = env.copy();
    let ghost all = env::pairs_view(extra@);
    let mut i: usize = 0;
    while i < extra.len()
        invariant
            i <= extra.len(),
            all == env::pairs_view(extra@),
            out@ == with_variables(env@, all.take(i as int)),
        decreases extra.len() - i,
    {
        proof {
            assert(all.take(i + 1).drop_last() =~= all.take(i as int));
            assert(all.take(i + 1).last() == (extra@[i as int].0@, extra@[i as int].1@));
        }
        out.insert(extra[i].0.as_str(), extra[i].1.as_str());
        i = i + 1;
    }
    proof {
        assert(all.take(all.len() as int) =~= all);
    }
    out
}

/// How a command of a service is started: the program and its arguments, with
/// an explicit `argv[0]` where the command sets one, the environment, the
/// working directory, the streams, and the user and group unless the command keeps full privileges.
pub open spec fn plan_of(
    unit: Seq<char>,
    c: ExecView,
    svc: ServiceView,
    env: Map<Seq<char>, Seq<char>>,
    extra: Seq<(Seq<char>, Seq<char>)>,
    home: Option<Seq<char>>,
    state_dir: Option<Seq<char>>,
) -> Result<PlanView, Seq<char>> {
    let argv = argv_of(c, env);
    let explicit = has_flag(c, ExecFlags::SET_ARGV0);
    let keep = has_flag(c, ExecFlags::FULL_PRIVS);
    if argv.len() == 0 {
        Err("empty argv"@)
    } else {
        match plan_dir(svc, home) {
            Err(e) => Err(e),
            Ok(dir) => match sink_of(svc.standard_input, unit, "in"@, state_dir) {
                Err(e) => Err(e),
                Ok(stdin) => match sink_of(svc.standard_output, unit, "out"@, state_dir) {
                    Err(e) => Err(e),
                    Ok(stdout) => match sink_of(svc.standard_error, unit, "err"@, state_dir) {
                        Err(e) => Err(e),
                        Ok(stderr) => Ok(
                            PlanView {
                                program: if explicit {
                                    c.program
                                } else {
                                    argv[0]
                                },
                                arg0: if explicit {
                                    Some(argv[0])
                                } else {
                                    None
                                },
                                args: argv.skip(1),
                                env: with_variables(env, extra),
                                working_dir: dir,
                                stdin,
                                stdout,
                                stderr,
                                umask: svc.umask,
                                uid: if keep {
                                    IdView::Unset
                                } else {
                                    user_id(svc.user)
                                },
                                gid: if keep {
                                    IdView::Unset
                                } else {
                                    group_id(svc.user, svc.group)
                                },
                            },
                        ),
                    },
                },
            },
        }
    }
}

/// The view of a plan or of why there is none.
pub open spec fn plan_result(r: Result<CommandPlan, String>) -> Result<PlanView, Seq<char>> {
    match r {
        Ok(p) => Ok(p@),
        Err(e) => Err(e@),
    }
}

/// Decide how a single `ExecCommand` is started: argv0, arguments, environment
/// (without the parent's), working directory, standard streams, user and group.
pub fn build_command(
    unit_name: &str,
    cmd: &ExecCommand,
    svc: &ServiceUnit,
    env: &TextMap,
    extra_env: &Vec<(String, String)>,
    home: &Option<String>,
    state_dir: &Option<String>,
) -> (r: Result<CommandPlan, String>)
    ensures
        plan_result(r) == plan_of(
            unit_name@,
            cmd@,
            svc@,
            env@,
            env::pairs_view(extra_env@),
            text::opt_text(*home),
            text::opt_text(*state_dir),
        ),
{
    let mut argv = substitute_argv(cmd, env);
    let ghost all = text::texts(argv@);
    if argv.len() == 0 {
        return Err("empty argv".to_owned());
    }
    let first = argv.remove(0);
    proof {
        assert(all[0] == first@);
        assert(text::texts(argv@) =~= all.skip(1));
    }
    let explicit = cmd.flags.contains(ExecFlags::SET_ARGV0);
    let program = if explicit { cmd.program.clone() } else { first.clone() };
    let arg0: Option<String> = if explicit { Some(first) } else { None };
    let working_dir: Option<String> = match &svc.working_directory {
        None => None,
        Some(p) => match resolve_working_dir(p.as_str(), home) {
            Ok(d) => Some(d),
            Err(e) => {
                return Err(e);
            },
        },
    };
    let stdin = match stream_sink(&svc.standard_input, unit_name, "in", state_dir) {
        Ok(s) => s,
        Err(e) => {
            return Err(e);
        },
    };
    let stdout = match stream_sink(&svc.standard_output, unit_name, "out", state_dir) {
        Ok(s) => s,
        Err(e) => {
            return Err(e);
        },
    };
    let stderr = match stream_sink(&svc.standard_error, unit_name, "err", state_dir) {
        Ok(s) => s,
        Err(e) => {
            return Err(e);
        },
    };
    let (uid, gid) = if cmd.flags.contains(ExecFlags::FULL_PRIVS) {
        (IdSource::Unset, IdSource::Unset)
    } else {
        lookup_user_group(&svc.user, &svc.group)
    };
    Ok(
        CommandPlan {
            program,
            arg0,
            args: argv,
            env: child_environment(env, extra_env),
            working_dir,
            stdin,
            stdout,
            stderr,
            umask: svc.umask,
            uid,
            gid,
        },
    )
}

} // verus!
