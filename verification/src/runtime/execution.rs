//! What a process of a service gets to see.

use crate::paths;
use crate::runtime::exec;
use crate::runtime::exec::{FileReadView, IdView, SinkView};
use crate::text;
use crate::unit::env::EnvironmentFileView;
use crate::unit::exec::{ExecFlags, ExecView};
use crate::unit::service::{ServiceView, StreamView};
use vstd::prelude::*;

verus! {

// ---------------------------------------------------------------------
// Variables in arguments
// ---------------------------------------------------------------------

/// Whether the text holds no `$`.
pub open spec fn is_literal(s: Seq<char>) -> bool {
    forall|i: int| 0 <= i < s.len() ==> #[trigger] s[i] != '$'
}

proof fn lemma_literal_start(a: Seq<char>, b: Seq<char>, env: Map<Seq<char>, Seq<char>>)
    requires
        is_literal(a),
    ensures
        exec::expanded(a + b, env) == a + exec::expanded(b, env),
    decreases a.len(),
{
    let s = a + b;
    if a.len() == 0 {
        assert(s =~= b);
        assert(a + exec::expanded(b, env) =~= exec::expanded(b, env));
    } else {
        assert(s[0] == a[0]);
        assert(s.skip(1) =~= a.skip(1) + b);
        assert forall|i: int| 0 <= i < a.skip(1).len() implies #[trigger] a.skip(1)[i] != '$' by {
            assert(a.skip(1)[i] == a[i + 1]);
        }
        lemma_literal_start(a.skip(1), b, env);
        assert(seq![a[0]] + (a.skip(1) + exec::expanded(b, env)) =~= a + exec::expanded(b, env));
    }
}

/// Whether the text can be the name of a variable.
pub open spec fn is_variable(n: Seq<char>) -> bool {
    &&& n.len() > 0
    &&& exec::begins_name(n[0])
    &&& forall|i: int|
        0 <= i < n.len() ==> exec::begins_name(#[trigger] n[i]) || text::is_digit(n[i])
}

proof fn lemma_name_len(n: Seq<char>, rest: Seq<char>)
    requires
        forall|i: int|
            0 <= i < n.len() ==> exec::begins_name(#[trigger] n[i]) || text::is_digit(n[i]),
        rest.len() == 0 || !(exec::begins_name(rest[0]) || text::is_digit(rest[0])),
    ensures
        exec::name_len(n + rest) == n.len(),
    decreases n.len(),
{
    let s = n + rest;
    if n.len() == 0 {
        assert(s =~= rest);
    } else {
        assert(s[0] == n[0]);
        assert(s.skip(1) =~= n.skip(1) + rest);
        assert forall|i: int| 0 <= i < n.skip(1).len() implies exec::begins_name(
            #[trigger] n.skip(1)[i],
        ) || text::is_digit(n.skip(1)[i]) by {
            assert(n.skip(1)[i] == n[i + 1]);
        }
        lemma_name_len(n.skip(1), rest);
    }
}

/// A variable in an argument is replaced by its value, or by nothing where it has
/// none, in braces and without; what stands before it stays, and what stands behind
/// it is looked at in the same way.
pub proof fn variables_are_replaced(
    a: Seq<char>,
    n: Seq<char>,
    b: Seq<char>,
    env: Map<Seq<char>, Seq<char>>,
)
    requires
        is_literal(a),
        is_variable(n),
    ensures
        ({
            let value = if env.contains_key(n) {
                env[n]
            } else {
                Seq::<char>::empty()
            };
            &&& exec::expanded(a + (seq!['$', '{'] + n + seq!['}'] + b), env) == a + (value
                + exec::expanded(b, env))
            &&& b.len() == 0 || !(exec::begins_name(b[0]) || text::is_digit(b[0]))
                ==> exec::expanded(a + (seq!['$'] + n + b), env) == a + (value + exec::expanded(
                b,
                env,
            ))
        }),
{
    let x = seq!['$', '{'] + n + seq!['}'] + b;
    lemma_literal_start(a, x, env);
    let body = x.skip(2);
    assert(x[0] == '$' && x[1] == '{');
    assert(body =~= n + seq!['}'] + b);
    let k = n.len() as int;
    assert(body[k] == '}');
    assert forall|j: int| 0 <= j < k implies body[j] != '}' by {
        assert(body[j] == n[j]);
    }
    text::lemma_first_index_is(body, '}', k);
    assert(body.take(k) =~= n);
    assert(body.skip(k + 1) =~= b);
    if b.len() == 0 || !(exec::begins_name(b[0]) || text::is_digit(b[0])) {
        let y = seq!['$'] + n + b;
        lemma_literal_start(a, y, env);
        assert(y[0] == '$' && y[1] == n[0]);
        let c = y.skip(1);
        assert(c =~= n + b);
        lemma_name_len(n, b);
        assert(c.take(k) =~= n);
        assert(c.skip(k) =~= b);
    }
}

/// Behind `:` the arguments are kept as they are; else each is looked through for
/// variables.
pub proof fn arguments_are_expanded_unless_kept(
    c: ExecView,
    env: Map<Seq<char>, Seq<char>>,
    i: int,
)
    requires
        0 <= i < c.argv.len(),
    ensures
        exec::argv_of(c, env).len() == c.argv.len(),
        exec::argv_of(c, env)[i] == if c.flags & ExecFlags::NO_ENV_SUBST
            == ExecFlags::NO_ENV_SUBST {
            c.argv[i]
        } else {
            exec::expanded(c.argv[i], env)
        },
{
}

// ---------------------------------------------------------------------
// The environment
// ---------------------------------------------------------------------

/// The value that the last of the assignments to a name gives it, as it stands.
pub open spec fn last_assigned(ps: Seq<(Seq<char>, Seq<char>)>, k: Seq<char>) -> Option<Seq<char>>
    decreases ps.len(),
{
    if ps.len() == 0 {
        None
    } else if ps.last().0 == k {
        Some(ps.last().1)
    } else {
        last_assigned(ps.drop_last(), k)
    }
}

/// The assignments that the lines of an environment file make, in order.
pub open spec fn assigned_by(ls: Seq<Seq<char>>) -> Seq<(Seq<char>, Seq<char>)>
    decreases ls.len(),
{
    if ls.len() == 0 {
        seq![]
    } else {
        match exec::env_line(ls.last()) {
            Some(p) => assigned_by(ls.drop_last()).push(p),
            None => assigned_by(ls.drop_last()),
        }
    }
}

/// The value that the last environment file that gives one gives a name.
pub open spec fn given_by_files(files: Seq<Option<Seq<char>>>, k: Seq<char>) -> Option<Seq<char>>
    decreases files.len(),
{
    if files.len() == 0 {
        None
    } else {
        match files.last() {
            Some(c) => match last_assigned(assigned_by(text::lines_of(c)), k) {
                Some(v) => Some(v),
                None => given_by_files(files.drop_last(), k),
            },
            None => given_by_files(files.drop_last(), k),
        }
    }
}

/// The value of a name in an environment.
pub open spec fn looked_up(env: Map<Seq<char>, Seq<char>>, k: Seq<char>) -> Option<Seq<char>> {
    if env.contains_key(k) {
        Some(env[k])
    } else {
        None
    }
}

proof fn lemma_lines(env: Map<Seq<char>, Seq<char>>, ls: Seq<Seq<char>>, k: Seq<char>)
    ensures
        looked_up(exec::with_lines(env, ls), k) == match last_assigned(assigned_by(ls), k) {
            Some(v) => Some(v),
            None => looked_up(env, k),
        },
    decreases ls.len(),
{
    if ls.len() > 0 {
        lemma_lines(env, ls.drop_last(), k);
        match exec::env_line(ls.last()) {
            Some(p) => {
                let before = assigned_by(ls.drop_last());
                assert(before.push(p).drop_last() =~= before);
            },
            None => {},
        }
    }
}

proof fn lemma_files(env: Map<Seq<char>, Seq<char>>, files: Seq<Option<Seq<char>>>, k: Seq<char>)
    ensures
        looked_up(exec::with_files(env, files), k) == match given_by_files(files, k) {
            Some(v) => Some(v),
            None => looked_up(env, k),
        },
    decreases files.len(),
{
    if files.len() > 0 {
        lemma_files(env, files.drop_last(), k);
        match files.last() {
            Some(c) => {
                lemma_lines(
                    exec::with_files(env, files.drop_last()),
                    text::lines_of(c),
                    k,
                );
            },
            None => {},
        }
    }
}

proof fn lemma_inherited(parent: Map<Seq<char>, Seq<char>>, names: Seq<Seq<char>>, k: Seq<char>)
    ensures
        looked_up(exec::inherited(parent, names), k) == if names.contains(k) {
            looked_up(parent, k)
        } else {
            None
        },
    decreases names.len(),
{
    if names.len() > 0 {
        let before = names.drop_last();
        lemma_inherited(parent, before, k);
        assert(names[names.len() - 1] == names.last());
        if before.contains(k) {
            let i = choose|i: int| 0 <= i < before.len() && before[i] == k;
            assert(names[i] == k);
        }
        if names.contains(k) && k != names.last() {
            let i = choose|i: int| 0 <= i < names.len() && names[i] == k;
            assert(before[i] == k);
        }
    }
}

proof fn lemma_without(env: Map<Seq<char>, Seq<char>>, names: Seq<Seq<char>>, k: Seq<char>)
    ensures
        looked_up(exec::without_names(env, names), k) == if names.contains(k) {
            None
        } else {
            looked_up(env, k)
        },
    decreases names.len(),
{
    if names.len() > 0 {
        let before = names.drop_last();
        lemma_without(env, before, k);
        assert(names[names.len() - 1] == names.last());
        if before.contains(k) {
            let i = choose|i: int| 0 <= i < before.len() && before[i] == k;
            assert(names[i] == k);
        }
        if names.contains(k) && k != names.last() {
            let i = choose|i: int| 0 <= i < names.len() && names[i] == k;
            assert(before[i] == k);
        }
    }
}

proof fn lemma_literal(s: Seq<char>, env: Map<Seq<char>, Seq<char>>)
    requires
        is_literal(s),
    ensures
        exec::expanded(s, env) == s,
{
    let none = Seq::<char>::empty();
    lemma_literal_start(s, none, env);
    assert(s + none =~= s);
}

proof fn lemma_assigned(
    env: Map<Seq<char>, Seq<char>>,
    ps: Seq<(Seq<char>, Seq<char>)>,
    k: Seq<char>,
)
    ensures
        last_assigned(ps, k) is None ==> looked_up(exec::with_assignments(env, ps), k)
            == looked_up(env, k),
        last_assigned(ps, k) matches Some(v) ==> looked_up(exec::with_assignments(env, ps), k)
            is Some && (is_literal(v) ==> looked_up(exec::with_assignments(env, ps), k) == Some(v)),
    decreases ps.len(),
{
    if ps.len() > 0 {
        lemma_assigned(env, ps.drop_last(), k);
        if is_literal(ps.last().1) {
            lemma_literal(ps.last().1, exec::with_assignments(env, ps.drop_last()));
        }
    }
}

/// Where a variable of a process comes from: `UnsetEnvironment=` wins over all, then
/// the last assignment of `Environment=`, then the last line of the environment
/// files, then the manager's own value where `PassEnvironment=` names it; nothing
/// else is there.
pub proof fn later_sources_win(
    svc: ServiceView,
    parent: Map<Seq<char>, Seq<char>>,
    files: Seq<Option<Seq<char>>>,
    k: Seq<char>,
)
    ensures
        ({
            let got = looked_up(exec::environment_for(svc, parent, files), k);
            let set = last_assigned(svc.environment, k);
            let read = given_by_files(files, k);
            &&& svc.unset_environment.contains(k) ==> got is None
            &&& !svc.unset_environment.contains(k) ==> {
                &&& set is Some ==> got is Some && (is_literal(set->Some_0) ==> got == set)
                &&& set is None && read is Some ==> got == read
                &&& set is None && read is None ==> got == if svc.pass_environment.contains(k) {
                    looked_up(parent, k)
                } else {
                    None
                }
            }
        }),
{
    let a = exec::inherited(parent, svc.pass_environment);
    let b = exec::with_files(a, files);
    let c = exec::with_assignments(b, svc.environment);
    lemma_inherited(parent, svc.pass_environment, k);
    lemma_files(a, files, k);
    lemma_assigned(b, svc.environment, k);
    lemma_without(c, svc.unset_environment, k);
}

/// An assignment may use what is set before it: the last one is expanded over the
/// variables that the ones before it leave.
pub proof fn assignments_see_earlier_ones(
    env: Map<Seq<char>, Seq<char>>,
    ps: Seq<(Seq<char>, Seq<char>)>,
    k: Seq<char>,
    v: Seq<char>,
)
    ensures
        looked_up(exec::with_assignments(env, ps.push((k, v))), k) == Some(
            exec::expanded(v, exec::with_assignments(env, ps)),
        ),
{
    assert(ps.push((k, v)).drop_last() =~= ps);
}

/// A line of an environment file is an assignment just where it is neither empty nor
/// a comment and has a `=`.
pub proof fn comments_assign_nothing(line: Seq<char>)
    ensures
        ({
            let t = text::trimmed(line);
            exec::env_line(line) is Some <==> t.len() > 0 && t[0] != '#' && t.contains('=')
        }),
{
    text::lemma_first_index(text::trimmed(line), '=');
}

/// An environment file that is missing is passed over where it may be; one that is
/// missing but may not, or cannot be read, is an error.
pub proof fn only_optional_files_may_be_missing(f: EnvironmentFileView, s: Seq<char>)
    ensures
        exec::contents_of(f, FileReadView::Contents(s)) == Ok::<Option<Seq<char>>, Seq<char>>(
            Some(s),
        ),
        exec::contents_of(f, FileReadView::Absent(s)) is Ok <==> f.optional,
        f.optional ==> exec::contents_of(f, FileReadView::Absent(s)) == Ok::<
            Option<Seq<char>>,
            Seq<char>,
        >(None),
        exec::contents_of(f, FileReadView::Failed(s)) is Err,
{
}

// ---------------------------------------------------------------------
// The plan of a process
// ---------------------------------------------------------------------

/// `~` is the home, `~/` leads below it, and any other directory is taken as it
/// stands.
pub proof fn a_tilde_is_the_home(h: Seq<char>, rest: Seq<char>, p: Seq<char>)
    requires
        p.len() == 0 || p[0] != '~',
    ensures
        exec::working_dir("~"@, Some(h)) == Ok::<Seq<char>, Seq<char>>(h),
        exec::working_dir("~/"@ + rest, Some(h)) == Ok::<Seq<char>, Seq<char>>(
            paths::joined(h, rest),
        ),
        exec::working_dir(p, Some(h)) == Ok::<Seq<char>, Seq<char>>(p),
        exec::working_dir(p, None) == Ok::<Seq<char>, Seq<char>>(p),
        exec::working_dir("~"@, None) is Err,
        exec::working_dir("~/"@ + rest, None) is Err,
{
    reveal_strlit("~");
    reveal_strlit("~/");
    let s = "~/"@ + rest;
    assert(s.take(2) =~= "~/"@);
    assert(s.skip(2) =~= rest);
    assert(s.len() >= 2);
    if p.len() >= 2 {
        assert(p.take(2)[0] == p[0]);
    }
}

/// A stream to a file empties it unless it says to append; what goes to the journal
/// is appended to the unit's own file there.
pub proof fn streams_go_to_their_sinks(
    p: Seq<char>,
    unit: Seq<char>,
    which: Seq<char>,
    d: Seq<char>,
)
    ensures
        exec::sink_of(StreamView::File(p), unit, which, None) == Ok::<SinkView, Seq<char>>(
            SinkView::Truncate(p),
        ),
        exec::sink_of(StreamView::Truncate(p), unit, which, None) == Ok::<SinkView, Seq<char>>(
            SinkView::Truncate(p),
        ),
        exec::sink_of(StreamView::Append(p), unit, which, None) == Ok::<SinkView, Seq<char>>(
            SinkView::Append(p),
        ),
        exec::sink_of(StreamView::Inherit, unit, which, None) == Ok::<SinkView, Seq<char>>(
            SinkView::Inherit,
        ),
        exec::sink_of(StreamView::Null, unit, which, None) == Ok::<SinkView, Seq<char>>(
            SinkView::Null,
        ),
        exec::sink_of(StreamView::Tty, unit, which, None) == Ok::<SinkView, Seq<char>>(
            SinkView::Tty,
        ),
        exec::sink_of(StreamView::Journal(p), unit, which, Some(d)) == Ok::<SinkView, Seq<char>>(
            SinkView::Append(
                paths::joined(paths::joined(d, "journal"@), unit + "."@ + which + ".log"@),
            ),
        ),
        exec::sink_of(StreamView::Journal(p), unit, which, None) is Err,
{
}

/// A plan runs the expanded arguments with the environment and what is added to it:
/// the first argument is the program, unless the command names one apart. Each stream
/// goes where its own directive says. The user and the group are those of the
/// service, but behind `+` they are left alone.
pub proof fn a_plan_is_what_the_service_says(
    unit: Seq<char>,
    c: ExecView,
    svc: ServiceView,
    env: Map<Seq<char>, Seq<char>>,
    extra: Seq<(Seq<char>, Seq<char>)>,
    home: Option<Seq<char>>,
    state_dir: Option<Seq<char>>,
)
    ensures
        exec::plan_of(unit, c, svc, env, extra, home, state_dir) matches Ok(p) ==> {
            let argv = exec::argv_of(c, env);
            let named = c.flags & ExecFlags::SET_ARGV0 == ExecFlags::SET_ARGV0;
            let raised = c.flags & ExecFlags::FULL_PRIVS == ExecFlags::FULL_PRIVS;
            &&& argv.len() > 0
            &&& argv == seq![argv[0]] + p.args
            &&& !named ==> p.program == argv[0] && p.arg0 is None
            &&& named ==> p.program == c.program && p.arg0 == Some(argv[0])
            &&& forall|k: Seq<char>| #[trigger]
                looked_up(p.env, k) == match last_assigned(extra, k) {
                    Some(v) => Some(v),
                    None => looked_up(env, k),
                }
            &&& exec::sink_of(svc.standard_input, unit, "in"@, state_dir) == Ok::<
                SinkView,
                Seq<char>,
            >(p.stdin)
            &&& exec::sink_of(svc.standard_output, unit, "out"@, state_dir) == Ok::<
                SinkView,
                Seq<char>,
            >(p.stdout)
            &&& exec::sink_of(svc.standard_error, unit, "err"@, state_dir) == Ok::<
                SinkView,
                Seq<char>,
            >(p.stderr)
            &&& p.umask == svc.umask
            &&& svc.working_directory is None <==> p.working_dir is None
            &&& svc.working_directory matches Some(d) ==> exec::working_dir(d, home) == Ok::<
                Seq<char>,
                Seq<char>,
            >(p.working_dir->Some_0)
            &&& raised ==> p.uid is Unset && p.gid is Unset
            &&& !raised ==> (p.uid is Unset <==> svc.user is None) && (p.gid is Unset
                <==> svc.user is None && svc.group is None)
        },
        exec::plan_of(unit, c, svc, env, extra, home, state_dir) is Ok <==> {
            &&& c.argv.len() > 0
            &&& svc.working_directory matches Some(d) ==> exec::working_dir(d, home) is Ok
            &&& exec::sink_of(svc.standard_input, unit, "in"@, state_dir) is Ok
            &&& exec::sink_of(svc.standard_output, unit, "out"@, state_dir) is Ok
            &&& exec::sink_of(svc.standard_error, unit, "err"@, state_dir) is Ok
        },
{
    let argv = exec::argv_of(c, env);
    assert(argv.len() == c.argv.len());
    if argv.len() > 0 {
        assert(argv =~= seq![argv[0]] + argv.skip(1));
    }
    assert forall|k: Seq<char>| #[trigger]
        looked_up(exec::with_variables(env, extra), k) == match last_assigned(extra, k) {
            Some(v) => Some(v),
            None => looked_up(env, k),
        } by {
        lemma_variables(env, extra, k);
    }
}

proof fn lemma_variables(
    env: Map<Seq<char>, Seq<char>>,
    ps: Seq<(Seq<char>, Seq<char>)>,
    k: Seq<char>,
)
    ensures
        looked_up(exec::with_variables(env, ps), k) == match last_assigned(ps, k) {
            Some(v) => Some(v),
            None => looked_up(env, k),
        },
    decreases ps.len(),
{
    if ps.len() > 0 {
        lemma_variables(env, ps.drop_last(), k);
    }
}

/// A user or a group is its number where it is one, else its name; without a group
/// the user's own group is taken.
pub proof fn users_and_groups(u: Seq<char>, g: Seq<char>, n: u32)
    requires
        crate::number::uint_of(u, 10, 0xffff_ffff) is Err,
    ensures
        exec::user_id(Some(crate::number::decimal(n as nat))) == IdView::Number(n),
        exec::user_id(Some(u)) == IdView::Named(u),
        exec::user_id(None) is Unset,
        exec::group_id(Some(u), Some(crate::number::decimal(n as nat))) == IdView::Number(n),
        exec::group_id(None, Some(u)) == IdView::Named(u),
        exec::group_id(Some(u), None) == IdView::PrimaryOfNamed(u),
        exec::group_id(Some(crate::number::decimal(n as nat)), None) == IdView::PrimaryOfNumber(n),
        exec::group_id(None, None) is Unset,
{
    crate::number::decimal_reads_back(n as nat, 0xffff_ffff);
}

} // verus!
