//! ExecStart= / ExecStop= / etc. parsing.
//!
//! Format: optional flag chars (`-`, `+`, `:`, `!`, `!!`, `@`) followed by an
//! argv. Argv is shell-like: whitespace-separated, supports `'...'` and
//! `"..."` quoting and `\` escapes. systemd allows `${VAR}` substitution; the
//! raw form is captured and expansion is left to run time.

use crate::text;
use crate::text::{chars_of, string_of, trim, trim_start};
use vstd::prelude::*;
use vstd::slice::slice_subrange;

verus! {

/// Per-`Exec*=` line flags from leading characters.
#[derive(Debug, Clone, Copy, PartialEq, Eq, Hash, Structural)]
pub struct ExecFlags {
    /// One bit per flag.
    pub bits: u8,
}

impl ExecFlags {
    /// `-` — failure of the process is ignored.
    pub const IGNORE_FAILURE: u8 = 0b0000_0001;

    /// `+` — run with full privileges (skip User=, Group=, NoNewPrivileges=).
    pub const FULL_PRIVS: u8 = 0b0000_0010;

    /// `!` — run as user but skip namespace/seccomp setup.
    pub const RAISE_PRIV: u8 = 0b0000_0100;

    /// `!!` — like `!` but no-op on systems without ambient caps.
    pub const AMBIENT_RAISE: u8 = 0b0000_1000;

    /// `:` — disable variable substitution in this command.
    pub const NO_ENV_SUBST: u8 = 0b0001_0000;

    /// `@` — set argv[0] explicitly (next token after path).
    pub const SET_ARGV0: u8 = 0b0010_0000;

    /// No flags.
    pub fn empty() -> (r: Self)
        ensures
            r.bits == 0,
    {
        ExecFlags { bits: 0 }
    }

    /// Whether no flag is set.
    pub fn is_empty(self) -> (r: bool)
        ensures
            r == (self.bits == 0),
    {
        self.bits == 0
    }

    /// Whether all of these flags are set.
    pub fn contains(self, flags: u8) -> (r: bool)
        ensures
            r == (self.bits & flags == flags),
    {
        self.bits & flags == flags
    }
}

impl Default for ExecFlags {
    fn default() -> (r: Self)
        ensures
            r.bits == 0,
    {
        ExecFlags::empty()
    }
}

/// One `ExecStart=` (or sibling) line.
#[derive(Debug, PartialEq, Eq)]
pub struct ExecCommand {
    /// Original raw value as written.
    pub raw: String,
    /// Parsed argv. `argv[0]` is the program path unless `SET_ARGV0` is set,
    /// in which case `argv[0]` is the explicit argv[0] and `program` holds
    /// the path.
    pub argv: Vec<String>,
    /// The actual binary to invoke. Same as `argv[0]` unless `SET_ARGV0`.
    pub program: String,
    /// Flags from leading chars.
    pub flags: ExecFlags,
}

/// An [`ExecCommand`] by its characters.
pub struct ExecView {
    pub raw: Seq<char>,
    pub argv: Seq<Seq<char>>,
    pub program: Seq<char>,
    pub flags: u8,
}

impl View for ExecCommand {
    type V = ExecView;

    open spec fn view(&self) -> ExecView {
        ExecView {
            raw: self.raw@,
            argv: text::texts(self.argv@),
            program: self.program@,
            flags: self.flags.bits,
        }
    }
}

/// The views of a list of commands.
pub open spec fn commands_view(v: Seq<ExecCommand>) -> Seq<ExecView> {
    v.map_values(|c: ExecCommand| c@)
}

/// Copies a list of strings.
pub fn copy_strings(v: &Vec<String>) -> (r: Vec<String>)
    ensures
        text::texts(r@) == text::texts(v@),
{
    let mut out: Vec<String> = Vec::new();
    let mut i: usize = 0;
    while i < v.len()
        invariant
            i <= v.len(),
            text::texts(out@) =~= text::texts(v@).take(i as int),
        decreases v.len() - i,
    {
        let ghost before = out@;
        out.push(v[i].clone());
        proof {
            assert(text::texts(out@) =~= text::texts(before).push(v@[i as int]@));
        }
        i = i + 1;
    }
    proof {
        assert(text::texts(v@).take(v@.len() as int) =~= text::texts(v@));
    }
    out
}

impl Clone for ExecCommand {
    fn clone(&self) -> (r: Self)
        ensures
            r@ == self@,
    {
        ExecCommand {
            raw: self.raw.clone(),
            argv: copy_strings(&self.argv),
            program: self.program.clone(),
            flags: self.flags,
        }
    }
}

// ---------------------------------------------------------------------
// Flags
// ---------------------------------------------------------------------

/// The flag bit of a leading character.
pub open spec fn flag_bit(c: char) -> Option<u8> {
    if c == '!' {
        Some(0b0000_0100)
    } else if c == '-' {
        Some(0b0000_0001)
    } else if c == '+' {
        Some(0b0000_0010)
    } else if c == ':' {
        Some(0b0001_0000)
    } else if c == '@' {
        Some(0b0010_0000)
    } else {
        None
    }
}

/// The flags at the start of a command, added to `bits`, and the rest of it.
/// `!!` is one flag; white space may stand between flags.
pub open spec fn leading_flags(s: Seq<char>, bits: u8) -> (u8, Seq<char>)
    decreases s.len(),
{
    proof {
        text::lemma_trimmed_ends(s.skip(1));
        text::lemma_trimmed_ends(s.skip(2));
    }
    if s.len() >= 2 && s[0] == '!' && s[1] == '!' {
        leading_flags(text::trimmed_start(s.skip(2)), bits | 0b0000_1000)
    } else if s.len() >= 1 && flag_bit(s[0]) is Some {
        leading_flags(text::trimmed_start(s.skip(1)), bits | flag_bit(s[0])->Some_0)
    } else {
        (bits, s)
    }
}

fn strip_flags(s: &[char]) -> (r: (ExecFlags, &[char]))
    ensures
        leading_flags(s@, 0) == (r.0.bits, r.1@),
{
    let mut bits: u8 = 0;
    let mut rest: &[char] = s;
    loop
        invariant
            leading_flags(s@, 0) == leading_flags(rest@, bits),
        decreases rest@.len(),
    {
        if rest.len() >= 2 && rest[0] == '!' && rest[1] == '!' {
            bits = bits | 0b0000_1000;
            proof {
                assert(rest@.skip(2) =~= rest@.subrange(2, rest@.len() as int));
            }
            rest = trim_start(slice_subrange(rest, 2, rest.len()));
            continue;
        }
        if rest.len() == 0 {
            return (ExecFlags { bits }, rest);
        }
        let c = rest[0];
        let bit: u8 = if c == '!' {
            0b0000_0100
        } else if c == '-' {
            0b0000_0001
        } else if c == '+' {
            0b0000_0010
        } else if c == ':' {
            0b0001_0000
        } else if c == '@' {
            0b0010_0000
        } else {
            return (ExecFlags { bits }, rest);
        };
        bits = bits | bit;
        proof {
            assert(rest@.skip(1) =~= rest@.subrange(1, rest@.len() as int));
        }
        rest = trim_start(slice_subrange(rest, 1, rest.len()));
    }
}

// ---------------------------------------------------------------------
// Words
// ---------------------------------------------------------------------

/// The quotes that a position stands in.
#[derive(Clone, Copy, PartialEq, Eq, Structural)]
pub enum Quote {
    Outside,
    Single,
    Double,
}

/// What a backslash and a character stand for inside double quotes.
pub open spec fn unescaped(c: char) -> Seq<char> {
    if c == '\\' || c == '"' {
        seq![c]
    } else if c == 'n' {
        seq!['\n']
    } else if c == 't' {
        seq!['\t']
    } else if c == 'r' {
        seq!['\r']
    } else {
        seq!['\\', c]
    }
}

/// The words of the rest `s` of a line: `out` are complete, `cur` is being
/// read where `in_word` holds, `q` are the quotes around the position.
pub open spec fn words_from(
    s: Seq<char>,
    q: Quote,
    out: Seq<Seq<char>>,
    cur: Seq<char>,
    in_word: bool,
) -> Result<Seq<Seq<char>>, Seq<char>>
    decreases s.len(),
{
    if s.len() == 0 {
        if q != Quote::Outside {
            Err("unterminated quote"@)
        } else if in_word {
            Ok(out.push(cur))
        } else {
            Ok(out)
        }
    } else {
        let c = s[0];
        let t = s.skip(1);
        match q {
            Quote::Outside => if c == ' ' || c == '\t' {
                if in_word {
                    words_from(t, q, out.push(cur), seq![], false)
                } else {
                    words_from(t, q, out, cur, false)
                }
            } else if c == '\\' {
                if t.len() == 0 {
                    Err("trailing backslash"@)
                } else {
                    words_from(s.skip(2), q, out, cur.push(t[0]), true)
                }
            } else if c == '\'' {
                words_from(t, Quote::Single, out, cur, true)
            } else if c == '"' {
                words_from(t, Quote::Double, out, cur, true)
            } else {
                words_from(t, q, out, cur.push(c), true)
            },
            Quote::Single => if c == '\'' {
                words_from(t, Quote::Outside, out, cur, in_word)
            } else {
                words_from(t, q, out, cur.push(c), in_word)
            },
            Quote::Double => if c == '"' {
                words_from(t, Quote::Outside, out, cur, in_word)
            } else if c == '\\' {
                if t.len() == 0 {
                    Err("trailing backslash in \"\""@)
                } else {
                    words_from(s.skip(2), q, out, cur + unescaped(t[0]), in_word)
                }
            } else {
                words_from(t, q, out, cur.push(c), in_word)
            },
        }
    }
}

/// The words of a line.
pub open spec fn shell_words(s: Seq<char>) -> Result<Seq<Seq<char>>, Seq<char>> {
    words_from(s, Quote::Outside, seq![], seq![], false)
}

/// The view of split words.
pub open spec fn words_result(r: Result<Vec<String>, String>) -> Result<
    Seq<Seq<char>>,
    Seq<char>,
> {
    match r {
        Ok(v) => Ok(text::texts(v@)),
        Err(e) => Err(e@),
    }
}

/// Appends what an escape stands for.
fn push_unescaped(cur: &mut Vec<char>, c: char)
    ensures
        final(cur)@ == old(cur)@ + unescaped(c),
{
    let ghost before = cur@;
    if c == '\\' || c == '"' {
        cur.push(c);
        proof {
            assert(cur@ =~= before + seq![c]);
        }
    } else if c == 'n' {
        cur.push('\n');
        proof {
            assert(cur@ =~= before + seq!['\n']);
        }
    } else if c == 't' {
        cur.push('\t');
        proof {
            assert(cur@ =~= before + seq!['\t']);
        }
    } else if c == 'r' {
        cur.push('\r');
        proof {
            assert(cur@ =~= before + seq!['\r']);
        }
    } else {
        cur.push('\\');
        cur.push(c);
        proof {
            assert(cur@ =~= before + seq!['\\', c]);
        }
    }
}

/// Splits the characters of a line into words.
fn split_words(s: &[char]) -> (r: Result<Vec<String>, String>)
    ensures
        words_result(r) == shell_words(s@),
{
    let mut out: Vec<String> = Vec::new();
    let mut cur: Vec<char> = Vec::new();
    let mut in_word: bool = false;
    let mut q: Quote = Quote::Outside;
    let mut i: usize = 0;
    proof {
        assert(s@.skip(0) =~= s@);
        assert(text::texts(out@) =~= seq![]);
        assert(cur@ =~= seq![]);
    }
    while i < s.len()
        invariant
            i <= s.len(),
            shell_words(s@) == words_from(s@.skip(i as int), q, text::texts(out@), cur@, in_word),
        decreases s.len() - i,
    {
        let c = s[i];
        let ghost rest = s@.skip(i as int);
        proof {
            assert(rest[0] == c);
            assert(rest.skip(1) =~= s@.skip(i + 1));
            if i + 1 < s.len() {
                assert(rest.skip(2) =~= s@.skip(i + 2));
                assert(rest.skip(1)[0] == s@[i + 1]);
            }
        }
        match q {
            Quote::Outside => {
                if c == ' ' || c == '\t' {
                    if in_word {
                        let ghost before = out@;
                        out.push(string_of(cur.as_slice()));
                        proof {
                            assert(text::texts(out@) =~= text::texts(before).push(cur@));
                        }
                        cur = Vec::new();
                        proof {
                            assert(cur@ =~= seq![]);
                        }
                        in_word = false;
                    }
                    i = i + 1;
                } else if c == '\\' {
                    if i + 1 >= s.len() {
                        return Err("trailing backslash".to_owned());
                    }
                    cur.push(s[i + 1]);
                    in_word = true;
                    i = i + 2;
                } else if c == '\'' {
                    q = Quote::Single;
                    in_word = true;
                    i = i + 1;
                } else if c == '"' {
                    q = Quote::Double;
                    in_word = true;
                    i = i + 1;
                } else {
                    cur.push(c);
                    in_word = true;
                    i = i + 1;
                }
            },
            Quote::Single => {
                if c == '\'' {
                    q = Quote::Outside;
                } else {
                    cur.push(c);
                }
                i = i + 1;
            },
            Quote::Double => {
                if c == '"' {
                    q = Quote::Outside;
                    i = i + 1;
                } else if c == '\\' {
                    if i + 1 >= s.len() {
                        return Err("trailing backslash in \"\"".to_owned());
                    }
                    push_unescaped(&mut cur, s[i + 1]);
                    i = i + 2;
                } else {
                    cur.push(c);
                    i = i + 1;
                }
            },
        }
    }
    if q != Quote::Outside {
        return Err("unterminated quote".to_owned());
    }
    if in_word {
        let ghost before = out@;
        out.push(string_of(cur.as_slice()));
        proof {
            assert(text::texts(out@) =~= text::texts(before).push(cur@));
        }
    }
    Ok(out)
}

/// Shell-style argv split with `'...'` (literal) and `"..."` (escapes) quoting.
pub fn shell_split(s: &str) -> (r: Result<Vec<String>, String>)
    ensures
        words_result(r) == shell_words(s@),
{
    let v = chars_of(s);
    split_words(v.as_slice())
}

// ---------------------------------------------------------------------
// Commands
// ---------------------------------------------------------------------

/// The command that an `Exec*=` value stands for, or why it stands for none.
pub open spec fn command_of(value: Seq<char>) -> Result<ExecView, Seq<char>> {
    let raw = text::trimmed(value);
    if raw.len() == 0 {
        Err("empty exec line"@)
    } else {
        let (flags, rest) = leading_flags(raw, 0);
        match shell_words(rest) {
            Err(e) => Err(e),
            Ok(argv) => if argv.len() == 0 {
                Err("no command after flags"@)
            } else if flags & 0b0010_0000 == 0b0010_0000 {
                if argv.len() == 1 {
                    Err("@flag requires explicit argv[0]"@)
                } else {
                    Ok(ExecView { raw, argv: argv.skip(1), program: argv[0], flags })
                }
            } else {
                Ok(ExecView { raw, argv, program: argv[0], flags })
            },
        }
    }
}

/// The view of a parsed command.
pub open spec fn command_result(r: Result<ExecCommand, String>) -> Result<ExecView, Seq<char>> {
    match r {
        Ok(c) => Ok(c@),
        Err(e) => Err(e@),
    }
}

impl ExecCommand {
    /// Parse a single `ExecStart=` value.
    ///
    /// The error describes why parsing failed (e.g. unterminated quote).
    pub fn parse(raw: &str) -> (r: Result<Self, String>)
        ensures
            command_result(r) == command_of(raw@),
    {
        let v = chars_of(raw);
        let t = trim(v.as_slice());
        if t.len() == 0 {
            return Err("empty exec line".to_owned());
        }
        let (flags, rest) = strip_flags(t);
        match split_words(rest) {
            Err(e) => Err(e),
            Ok(mut argv) => {
                if argv.len() == 0 {
                    return Err("no command after flags".to_owned());
                }
                if flags.contains(ExecFlags::SET_ARGV0) {
                    if argv.len() == 1 {
                        return Err("@flag requires explicit argv[0]".to_owned());
                    }
                    let ghost all = argv@;
                    let program = argv.remove(0);
                    proof {
                        assert(text::texts(argv@) =~= text::texts(all).skip(1));
                    }
                    Ok(ExecCommand { raw: string_of(t), argv, program, flags })
                } else {
                    let program = argv[0].clone();
                    Ok(ExecCommand { raw: string_of(t), argv, program, flags })
                }
            },
        }
    }

    /// The command as it was written.
    pub fn to_text(&self) -> (r: String)
        ensures
            r@ == self@.raw,
    {
        self.raw.clone()
    }
}

} // verus!
