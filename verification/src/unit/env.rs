//! Environment= / EnvironmentFile= parsing.

use crate::text;
use crate::text::{chars_of, debug_text, split_once, string_of, strip_prefix, trim};
use crate::unit::exec;
use crate::unit::exec::shell_split;
use vstd::prelude::*;

verus! {

/// The views of a list of pairs.
pub open spec fn pairs_view(v: Seq<(String, String)>) -> Seq<(Seq<char>, Seq<char>)> {
    v.map_values(|p: (String, String)| (p.0@, p.1@))
}

/// The pairs that the words of an `Environment=` line stand for.
pub open spec fn env_pairs(words: Seq<Seq<char>>) -> Result<
    Seq<(Seq<char>, Seq<char>)>,
    Seq<char>,
>
    decreases words.len(),
{
    if words.len() == 0 {
        Ok(seq![])
    } else {
        match env_pairs(words.drop_last()) {
            Err(e) => Err(e),
            Ok(before) => match text::split_at_first(words.last(), '=') {
                None => Err("missing = in environment entry "@ + text::debug_form(words.last())),
                Some((k, v)) => if k.len() == 0 {
                    Err("empty key in environment entry "@ + text::debug_form(words.last()))
                } else {
                    Ok(before.push((k, v)))
                },
            },
        }
    }
}

/// The pairs of an `Environment=` line, or why it has none.
pub open spec fn environment_of(s: Seq<char>) -> Result<Seq<(Seq<char>, Seq<char>)>, Seq<char>> {
    match exec::shell_words(s) {
        Err(e) => Err(e),
        Ok(words) => env_pairs(words),
    }
}

/// The view of parsed pairs.
pub open spec fn environment_result(r: Result<Vec<(String, String)>, String>) -> Result<
    Seq<(Seq<char>, Seq<char>)>,
    Seq<char>,
> {
    match r {
        Ok(v) => Ok(pairs_view(v@)),
        Err(e) => Err(e@),
    }
}

proof fn lemma_env_pairs_error(words: Seq<Seq<char>>, n: int)
    requires
        0 <= n <= words.len(),
        env_pairs(words.take(n)) is Err,
    ensures
        env_pairs(words) == env_pairs(words.take(n)),
    decreases words.len() - n,
{
    if n == words.len() {
        assert(words.take(n) =~= words);
    } else {
        assert(words.take(n + 1).drop_last() =~= words.take(n));
        lemma_env_pairs_error(words, n + 1);
    }
}

/// Parse one `Environment=` line.
///
/// Multiple `Environment=` directives accumulate; later ones override earlier
/// keys. Format is `KEY=VALUE` whitespace-separated, with `'...'` or `"..."`
/// quoting around values that contain spaces.
pub fn parse_environment_line(s: &str) -> (r: Result<Vec<(String, String)>, String>)
    ensures
        environment_result(r) == environment_of(s@),
{
    match shell_split(s) {
        Err(e) => Err(e),
        Ok(words) => {
            let mut out: Vec<(String, String)> = Vec::new();
            let mut i: usize = 0;
            let ghost all = text::texts(words@);
            proof {
                assert(pairs_view(out@) =~= seq![]);
            }
            while i < words.len()
                invariant
                    i <= words.len(),
                    all == text::texts(words@),
                    exec::shell_words(s@) == Ok::<Seq<Seq<char>>, Seq<char>>(all),
                    env_pairs(all.take(i as int)) == Ok::<
                        Seq<(Seq<char>, Seq<char>)>,
                        Seq<char>,
                    >(pairs_view(out@)),
                decreases words.len() - i,
            {
                let w = chars_of(words[i].as_str());
                proof {
                    assert(all.take(i + 1).drop_last() =~= all.take(i as int));
                    assert(all.take(i + 1).last() == w@);
                }
                match split_once(w.as_slice(), '=') {
                    None => {
                        let mut m = "missing = in environment entry ".to_owned();
                        m.append(debug_text(words[i].as_str()).as_str());
                        proof {
                            lemma_env_pairs_error(all, i + 1);
                        }
                        return Err(m);
                    },
                    Some((k, v)) => {
                        if k.len() == 0 {
                            let mut m = "empty key in environment entry ".to_owned();
                            m.append(debug_text(words[i].as_str()).as_str());
                            proof {
                                lemma_env_pairs_error(all, i + 1);
                            }
                            return Err(m);
                        }
                        let ghost before = out@;
                        out.push((string_of(k), string_of(v)));
                        proof {
                            assert(pairs_view(out@) =~= pairs_view(before).push((k@, v@)));
                        }
                    },
                }
                i = i + 1;
            }
            proof {
                assert(all.take(all.len() as int) =~= all);
            }
            Ok(out)
        },
    }
}

/// `EnvironmentFile=`. Leading `-` makes load failure non-fatal.
#[derive(Debug, PartialEq, Eq)]
pub struct EnvironmentFile {
    /// Path to read.
    pub path: String,
    /// If true, missing file is OK.
    pub optional: bool,
}

/// An [`EnvironmentFile`] by its characters.
pub struct EnvironmentFileView {
    pub path: Seq<char>,
    pub optional: bool,
}

impl View for EnvironmentFile {
    type V = EnvironmentFileView;

    open spec fn view(&self) -> EnvironmentFileView {
        EnvironmentFileView { path: self.path@, optional: self.optional }
    }
}

impl Clone for EnvironmentFile {
    fn clone(&self) -> (r: Self)
        ensures
            r@ == self@,
    {
        EnvironmentFile { path: self.path.clone(), optional: self.optional }
    }
}

/// The views of a list of environment files.
pub open spec fn environment_files_view(v: Seq<EnvironmentFile>) -> Seq<EnvironmentFileView> {
    v.map_values(|f: EnvironmentFile| f@)
}

/// The environment file that a value stands for.
pub open spec fn environment_file_of(s: Seq<char>) -> EnvironmentFileView {
    match text::without_prefix(text::trimmed(s), "-"@) {
        Some(rest) => EnvironmentFileView { path: rest, optional: true },
        None => EnvironmentFileView { path: text::trimmed(s), optional: false },
    }
}

impl EnvironmentFile {
    /// Parse `[-]/path/to/env`.
    pub fn parse(s: &str) -> (r: Self)
        ensures
            r@ == environment_file_of(s@),
    {
        let v = chars_of(s);
        let t = trim(v.as_slice());
        match strip_prefix(t, "-") {
            Some(rest) => EnvironmentFile { path: string_of(rest), optional: true },
            None => EnvironmentFile { path: string_of(t), optional: false },
        }
    }
}

} // verus!
