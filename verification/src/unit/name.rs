//! Unit names: parsing, display, instance handling.
//!
//! systemd unit names look like:
//! - `foo.service` — plain unit
//! - `foo@bar.service` — instantiated template
//! - `foo@.service` — template (uninstantiated)
//! - `dev-disk-by\x2dlabel-foo.device` — escaped path-like name

use crate::paths;
use crate::paths::file_name;
use crate::text;
use crate::text::{
    char_code, char_is_space, chars_of, same, split_once, string_of, strip_prefix, strip_suffix,
};
use crate::unit::error::{ParseError, ParseErrorView};
use vstd::prelude::*;

verus! {

/// Suffix-typed unit kinds.
#[derive(Debug, Clone, Copy, PartialEq, Eq, Hash, PartialOrd, Ord, Structural)]
pub enum UnitKind {
    /// `.service`
    Service,
    /// `.socket`
    Socket,
    /// `.timer`
    Timer,
    /// `.path`
    Path,
    /// `.target`
    Target,
    /// `.mount`
    Mount,
    /// `.automount`
    Automount,
    /// `.swap`
    Swap,
    /// `.device`
    Device,
    /// `.slice`
    Slice,
    /// `.scope`
    Scope,
}

/// The suffix of a kind, with its leading `.`.
pub open spec fn suffix_text(kind: UnitKind) -> Seq<char> {
    match kind {
        UnitKind::Service => ".service"@,
        UnitKind::Socket => ".socket"@,
        UnitKind::Timer => ".timer"@,
        UnitKind::Path => ".path"@,
        UnitKind::Target => ".target"@,
        UnitKind::Mount => ".mount"@,
        UnitKind::Automount => ".automount"@,
        UnitKind::Swap => ".swap"@,
        UnitKind::Device => ".device"@,
        UnitKind::Slice => ".slice"@,
        UnitKind::Scope => ".scope"@,
    }
}

/// Where a kind stands among the kinds in order.
pub open spec fn kind_rank(kind: UnitKind) -> nat {
    match kind {
        UnitKind::Service => 0,
        UnitKind::Socket => 1,
        UnitKind::Timer => 2,
        UnitKind::Path => 3,
        UnitKind::Target => 4,
        UnitKind::Mount => 5,
        UnitKind::Automount => 6,
        UnitKind::Swap => 7,
        UnitKind::Device => 8,
        UnitKind::Slice => 9,
        UnitKind::Scope => 10,
    }
}

/// Whether the kind is meaningful in user mode on macOS.
pub open spec fn is_supported(kind: UnitKind) -> bool {
    kind is Service || kind is Socket || kind is Timer || kind is Path || kind is Target
        || kind is Scope
}

impl UnitKind {
    /// All known kinds, longest suffix first.
    pub const ALL: [UnitKind; 11] = [
        UnitKind::Automount,
        UnitKind::Service,
        UnitKind::Socket,
        UnitKind::Target,
        UnitKind::Device,
        UnitKind::Mount,
        UnitKind::Scope,
        UnitKind::Slice,
        UnitKind::Timer,
        UnitKind::Path,
        UnitKind::Swap,
    ];

    /// Suffix including the leading `.`.
    pub fn suffix(self) -> (r: &'static str)
        ensures
            r@ == suffix_text(self),
    {
        match self {
            UnitKind::Service => ".service",
            UnitKind::Socket => ".socket",
            UnitKind::Timer => ".timer",
            UnitKind::Path => ".path",
            UnitKind::Target => ".target",
            UnitKind::Mount => ".mount",
            UnitKind::Automount => ".automount",
            UnitKind::Swap => ".swap",
            UnitKind::Device => ".device",
            UnitKind::Slice => ".slice",
            UnitKind::Scope => ".scope",
        }
    }

    /// The kind whose suffix this is, with or without its leading `.`.
    pub fn from_suffix(s: &str) -> (r: Option<Self>)
        ensures
            r == kind_of_suffix(s@),
    {
        let v = chars_of(s);
        let body: &[char] = match strip_prefix(v.as_slice(), ".") {
            Some(rest) => rest,
            None => v.as_slice(),
        };
        let mut dotted: String = ".".to_owned();
        let tail = string_of(body);
        dotted.append(tail.as_str());
        let d = dotted.as_str();
        if same(d, ".automount") {
            Some(UnitKind::Automount)
        } else if same(d, ".service") {
            Some(UnitKind::Service)
        } else if same(d, ".socket") {
            Some(UnitKind::Socket)
        } else if same(d, ".target") {
            Some(UnitKind::Target)
        } else if same(d, ".device") {
            Some(UnitKind::Device)
        } else if same(d, ".mount") {
            Some(UnitKind::Mount)
        } else if same(d, ".scope") {
            Some(UnitKind::Scope)
        } else if same(d, ".slice") {
            Some(UnitKind::Slice)
        } else if same(d, ".timer") {
            Some(UnitKind::Timer)
        } else if same(d, ".path") {
            Some(UnitKind::Path)
        } else if same(d, ".swap") {
            Some(UnitKind::Swap)
        } else {
            None
        }
    }

    /// Whether this unit kind is meaningful in user-mode on macOS.
    /// (Mount/automount/swap/device/slice are Linux-only; they are parsed but
    /// never activated.)
    pub fn supported(self) -> (r: bool)
        ensures
            r == is_supported(self),
    {
        match self {
            UnitKind::Service
            | UnitKind::Socket
            | UnitKind::Timer
            | UnitKind::Path
            | UnitKind::Target
            | UnitKind::Scope => true,
            _ => false,
        }
    }

    /// The position of the kind in the order of kinds.
    pub fn rank(self) -> (r: u8)
        ensures
            r == kind_rank(self),
    {
        match self {
            UnitKind::Service => 0,
            UnitKind::Socket => 1,
            UnitKind::Timer => 2,
            UnitKind::Path => 3,
            UnitKind::Target => 4,
            UnitKind::Mount => 5,
            UnitKind::Automount => 6,
            UnitKind::Swap => 7,
            UnitKind::Device => 8,
            UnitKind::Slice => 9,
            UnitKind::Scope => 10,
        }
    }
}

/// The kind whose dotted suffix is the text.
pub open spec fn kind_with_suffix(d: Seq<char>) -> Option<UnitKind> {
    if d == suffix_text(UnitKind::Automount) {
        Some(UnitKind::Automount)
    } else if d == suffix_text(UnitKind::Service) {
        Some(UnitKind::Service)
    } else if d == suffix_text(UnitKind::Socket) {
        Some(UnitKind::Socket)
    } else if d == suffix_text(UnitKind::Target) {
        Some(UnitKind::Target)
    } else if d == suffix_text(UnitKind::Device) {
        Some(UnitKind::Device)
    } else if d == suffix_text(UnitKind::Mount) {
        Some(UnitKind::Mount)
    } else if d == suffix_text(UnitKind::Scope) {
        Some(UnitKind::Scope)
    } else if d == suffix_text(UnitKind::Slice) {
        Some(UnitKind::Slice)
    } else if d == suffix_text(UnitKind::Timer) {
        Some(UnitKind::Timer)
    } else if d == suffix_text(UnitKind::Path) {
        Some(UnitKind::Path)
    } else if d == suffix_text(UnitKind::Swap) {
        Some(UnitKind::Swap)
    } else {
        None
    }
}

/// The kind whose suffix the text is, with or without the leading `.`.
pub open spec fn kind_of_suffix(s: Seq<char>) -> Option<UnitKind> {
    match text::without_prefix(s, "."@) {
        Some(rest) => kind_with_suffix("."@ + rest),
        None => kind_with_suffix("."@ + s),
    }
}

/// Looking up the suffix of a kind gives the kind back, with the leading `.`
/// and without it.
pub proof fn suffix_identifies_kind(kind: UnitKind)
    ensures
        kind_of_suffix(suffix_text(kind)) == Some(kind),
        kind_of_suffix(suffix_text(kind).skip(1)) == Some(kind),
{
    lemma_suffix_shape(kind);
    lemma_suffixes_differ();
    let d = suffix_text(kind);
    reveal_strlit(".");
    assert("."@ =~= seq!['.']);
    assert(d.take(1) =~= "."@);
    assert("."@ + d.skip(1) =~= d);
    let rest = d.skip(1);
    assert(rest.take(1).len() == 1);
    assert(rest.take(1)[0] == d[1]);
    assert(!text::begins_with(rest, "."@));
}

/// The shape of a suffix: a dot, then at least one character, none of them a dot.
pub proof fn lemma_suffix_shape(kind: UnitKind)
    ensures
        suffix_text(kind).len() >= 2,
        suffix_text(kind)[0] == '.',
        forall|i: int| 1 <= i < suffix_text(kind).len() ==> suffix_text(kind)[i] != '.',
        forall|i: int|
            0 <= i < suffix_text(kind).len() ==> !text::is_space(#[trigger] suffix_text(kind)[i])
                && suffix_text(kind)[i] != '@',
{
    reveal_strlit(".service");
    reveal_strlit(".socket");
    reveal_strlit(".timer");
    reveal_strlit(".path");
    reveal_strlit(".target");
    reveal_strlit(".mount");
    reveal_strlit(".automount");
    reveal_strlit(".swap");
    reveal_strlit(".device");
    reveal_strlit(".slice");
    reveal_strlit(".scope");
}

/// Distinct kinds have distinct suffixes.
pub proof fn lemma_suffixes_differ()
    ensures
        forall|a: UnitKind, b: UnitKind|
            #[trigger] suffix_text(a) == #[trigger] suffix_text(b) ==> a == b,
{
    reveal_strlit(".service");
    reveal_strlit(".socket");
    reveal_strlit(".timer");
    reveal_strlit(".path");
    reveal_strlit(".target");
    reveal_strlit(".mount");
    reveal_strlit(".automount");
    reveal_strlit(".swap");
    reveal_strlit(".device");
    reveal_strlit(".slice");
    reveal_strlit(".scope");
    assert forall|a: UnitKind, b: UnitKind|
        #[trigger] suffix_text(a) == #[trigger] suffix_text(b) implies a == b by {
        let s = suffix_text(a);
        let t = suffix_text(b);
        assert(s.len() == t.len());
        assert(s[1] == t[1]);
        assert(s[2] == t[2]);
        assert(s[3] == t[3]);
    }
}

// ---------------------------------------------------------------------
// Names
// ---------------------------------------------------------------------

/// A parsed unit name with optional template instance.
#[derive(Debug, PartialEq, Eq, Hash, PartialOrd, Ord)]
pub struct UnitName {
    /// Stem before any `@` or suffix. e.g. `foo` in `foo@bar.service`.
    pub prefix: String,
    /// Instance name between `@` and `.`. `None` if no `@`.
    /// `Some("")` means a bare template (`foo@.service`).
    pub instance: Option<String>,
    /// Unit kind from suffix.
    pub kind: UnitKind,
}

/// A [`UnitName`] by its characters.
pub struct NameView {
    pub prefix: Seq<char>,
    pub instance: Option<Seq<char>>,
    pub kind: UnitKind,
}

impl View for UnitName {
    type V = NameView;

    open spec fn view(&self) -> NameView {
        NameView {
            prefix: self.prefix@,
            instance: text::opt_text(self.instance),
            kind: self.kind,
        }
    }
}

/// The view of an optional name.
pub open spec fn opt_name(o: Option<UnitName>) -> Option<NameView> {
    match o {
        Some(n) => Some(n@),
        None => None,
    }
}

/// The text of a name: prefix, `@` and instance where there is one, suffix.
pub open spec fn name_text(n: NameView) -> Seq<char> {
    match n.instance {
        None => n.prefix + suffix_text(n.kind),
        Some(inst) => n.prefix + "@"@ + inst + suffix_text(n.kind),
    }
}

/// The name of the template that an instance belongs to.
pub open spec fn template_of(n: NameView) -> Option<NameView> {
    match n.instance {
        Some(inst) => if inst.len() > 0 {
            Some(NameView { prefix: n.prefix, instance: Some(seq![]), kind: n.kind })
        } else {
            None
        },
        None => None,
    }
}

/// The kind whose suffix ends the text, and the text before that suffix.
pub open spec fn kind_and_stem(s: Seq<char>) -> Option<(UnitKind, Seq<char>)> {
    if text::finishes_with(s, suffix_text(UnitKind::Automount)) {
        Some((UnitKind::Automount, s.take(s.len() - suffix_text(UnitKind::Automount).len())))
    } else if text::finishes_with(s, suffix_text(UnitKind::Service)) {
        Some((UnitKind::Service, s.take(s.len() - suffix_text(UnitKind::Service).len())))
    } else if text::finishes_with(s, suffix_text(UnitKind::Socket)) {
        Some((UnitKind::Socket, s.take(s.len() - suffix_text(UnitKind::Socket).len())))
    } else if text::finishes_with(s, suffix_text(UnitKind::Target)) {
        Some((UnitKind::Target, s.take(s.len() - suffix_text(UnitKind::Target).len())))
    } else if text::finishes_with(s, suffix_text(UnitKind::Device)) {
        Some((UnitKind::Device, s.take(s.len() - suffix_text(UnitKind::Device).len())))
    } else if text::finishes_with(s, suffix_text(UnitKind::Mount)) {
        Some((UnitKind::Mount, s.take(s.len() - suffix_text(UnitKind::Mount).len())))
    } else if text::finishes_with(s, suffix_text(UnitKind::Scope)) {
        Some((UnitKind::Scope, s.take(s.len() - suffix_text(UnitKind::Scope).len())))
    } else if text::finishes_with(s, suffix_text(UnitKind::Slice)) {
        Some((UnitKind::Slice, s.take(s.len() - suffix_text(UnitKind::Slice).len())))
    } else if text::finishes_with(s, suffix_text(UnitKind::Timer)) {
        Some((UnitKind::Timer, s.take(s.len() - suffix_text(UnitKind::Timer).len())))
    } else if text::finishes_with(s, suffix_text(UnitKind::Path)) {
        Some((UnitKind::Path, s.take(s.len() - suffix_text(UnitKind::Path).len())))
    } else if text::finishes_with(s, suffix_text(UnitKind::Swap)) {
        Some((UnitKind::Swap, s.take(s.len() - suffix_text(UnitKind::Swap).len())))
    } else {
        None
    }
}

/// Whether the text has white space in it.
pub open spec fn has_space(s: Seq<char>) -> bool {
    exists|i: int| 0 <= i < s.len() && text::is_space(#[trigger] s[i])
}

/// The name that a text stands for, or why it stands for none.
pub open spec fn parse_name(s: Seq<char>) -> Result<NameView, Seq<char>> {
    match kind_and_stem(s) {
        None => Err("no recognised unit suffix"@),
        Some((kind, stem)) => if stem.len() == 0 {
            Err("empty unit prefix"@)
        } else if has_space(stem) {
            Err("unit name contains whitespace"@)
        } else {
            match text::split_at_first(stem, '@') {
                Some((prefix, instance)) => if prefix.len() == 0 {
                    Err("empty prefix before '@'"@)
                } else {
                    Ok(NameView { prefix, instance: Some(instance), kind })
                },
                None => Ok(NameView { prefix: stem, instance: None, kind }),
            }
        },
    }
}

/// The view of a parsed name.
pub open spec fn name_result(r: Result<UnitName, ParseError>) -> Result<NameView, ParseErrorView> {
    match r {
        Ok(n) => Ok(n@),
        Err(e) => Err(e@),
    }
}

/// What parsing a unit name gives.
pub open spec fn parse_name_result(s: Seq<char>) -> Result<NameView, ParseErrorView> {
    match parse_name(s) {
        Ok(n) => Ok(n),
        Err(reason) => Err(ParseErrorView::InvalidUnitName { name: s, reason }),
    }
}

/// What parsing the final component of a path gives.
pub open spec fn parse_path_name(p: Seq<char>) -> Result<NameView, ParseErrorView> {
    match paths::file_name_of(p) {
        Some(f) => parse_name_result(f),
        None => Err(ParseErrorView::InvalidUnitName { name: p, reason: "non-utf8 filename"@ }),
    }
}

fn split_kind(s: &[char]) -> (r: Option<(UnitKind, &[char])>)
    ensures
        match r {
            Some(p) => kind_and_stem(s@) == Some((p.0, p.1@)),
            None => kind_and_stem(s@) is None,
        },
{
    if let Some(stem) = strip_suffix(s, ".automount") {
        return Some((UnitKind::Automount, stem));
    }
    if let Some(stem) = strip_suffix(s, ".service") {
        return Some((UnitKind::Service, stem));
    }
    if let Some(stem) = strip_suffix(s, ".socket") {
        return Some((UnitKind::Socket, stem));
    }
    if let Some(stem) = strip_suffix(s, ".target") {
        return Some((UnitKind::Target, stem));
    }
    if let Some(stem) = strip_suffix(s, ".device") {
        return Some((UnitKind::Device, stem));
    }
    if let Some(stem) = strip_suffix(s, ".mount") {
        return Some((UnitKind::Mount, stem));
    }
    if let Some(stem) = strip_suffix(s, ".scope") {
        return Some((UnitKind::Scope, stem));
    }
    if let Some(stem) = strip_suffix(s, ".slice") {
        return Some((UnitKind::Slice, stem));
    }
    if let Some(stem) = strip_suffix(s, ".timer") {
        return Some((UnitKind::Timer, stem));
    }
    if let Some(stem) = strip_suffix(s, ".path") {
        return Some((UnitKind::Path, stem));
    }
    if let Some(stem) = strip_suffix(s, ".swap") {
        return Some((UnitKind::Swap, stem));
    }
    None
}

/// Refuses white space; every other character is let through.
fn validate_chars(s: &[char]) -> (r: Result<(), &'static str>)
    ensures
        match r {
            Ok(()) => !has_space(s@),
            Err(reason) => has_space(s@) && reason@ == "unit name contains whitespace"@,
        },
{
    let mut i: usize = 0;
    while i < s.len()
        invariant
            i <= s.len(),
            forall|j: int| 0 <= j < i ==> !text::is_space(#[trigger] s@[j]),
        decreases s.len() - i,
    {
        if char_is_space(s[i]) {
            return Err("unit name contains whitespace");
        }
        i = i + 1;
    }
    Ok(())
}

impl Clone for UnitName {
    fn clone(&self) -> (r: Self)
        ensures
            r@ == self@,
    {
        let instance: Option<String> = match &self.instance {
            Some(s) => Some(s.clone()),
            None => None,
        };
        UnitName { prefix: self.prefix.clone(), instance, kind: self.kind }
    }
}

impl UnitName {
    /// Construct a non-template unit name.
    pub fn plain(prefix: &str, kind: UnitKind) -> (r: Self)
        ensures
            r@ == (NameView { prefix: prefix@, instance: None, kind }),
    {
        UnitName { prefix: prefix.to_owned(), instance: None, kind }
    }

    /// Construct a template (uninstantiated) unit name.
    pub fn template(prefix: &str, kind: UnitKind) -> (r: Self)
        ensures
            r@ == (NameView { prefix: prefix@, instance: Some(seq![]), kind }),
    {
        UnitName { prefix: prefix.to_owned(), instance: Some(String::new()), kind }
    }

    /// Construct an instantiated template.
    pub fn instance(prefix: &str, instance: &str, kind: UnitKind) -> (r: Self)
        ensures
            r@ == (NameView { prefix: prefix@, instance: Some(instance@), kind }),
    {
        UnitName { prefix: prefix.to_owned(), instance: Some(instance.to_owned()), kind }
    }

    /// True if this name is a template (`foo@.service`).
    pub fn is_template(&self) -> (r: bool)
        ensures
            r == (self@.instance == Some(Seq::<char>::empty())),
    {
        match &self.instance {
            Some(s) => {
                proof {
                    assert(s@.len() == 0 ==> s@ =~= Seq::<char>::empty());
                }
                s.as_str().is_empty()
            },
            None => false,
        }
    }

    /// True if this is an instantiated template (`foo@bar.service`).
    pub fn is_instance(&self) -> (r: bool)
        ensures
            r == (self@.instance is Some && self@.instance->Some_0.len() > 0),
    {
        match &self.instance {
            Some(s) => !s.as_str().is_empty(),
            None => false,
        }
    }

    /// True if neither template nor instance — a plain unit.
    pub fn is_plain(&self) -> (r: bool)
        ensures
            r == (self@.instance is None),
    {
        self.instance.is_none()
    }

    /// The template form of an instance: `foo@bar.service` -> `foo@.service`.
    /// For plain or template names, returns `None`.
    pub fn template_form(&self) -> (r: Option<UnitName>)
        ensures
            match r {
                Some(t) => template_of(self@) == Some(t@),
                None => template_of(self@) is None,
            },
    {
        if self.is_instance() {
            Some(UnitName::template(self.prefix.as_str(), self.kind))
        } else {
            None
        }
    }

    /// Filename on disk: `foo.service`, `foo@bar.service`, `foo@.service`.
    pub fn filename(&self) -> (r: String)
        ensures
            r@ == name_text(self@),
    {
        let mut out = self.prefix.clone();
        if let Some(inst) = &self.instance {
            out.append("@");
            out.append(inst.as_str());
        }
        out.append(self.kind.suffix());
        out
    }

    /// The text of the name.
    pub fn to_text(&self) -> (r: String)
        ensures
            r@ == name_text(self@),
    {
        self.filename()
    }

    /// Parse a unit name.
    pub fn from_str(s: &str) -> (r: Result<Self, ParseError>)
        ensures
            name_result(r) == parse_name_result(s@),
    {
        let v = chars_of(s);
        match split_kind(v.as_slice()) {
            None => Err(
                ParseError::InvalidUnitName {
                    name: s.to_owned(),
                    reason: "no recognised unit suffix",
                },
            ),
            Some((kind, stem)) => {
                if stem.len() == 0 {
                    return Err(
                        ParseError::InvalidUnitName {
                            name: s.to_owned(),
                            reason: "empty unit prefix",
                        },
                    );
                }
                if let Err(reason) = validate_chars(stem) {
                    return Err(ParseError::InvalidUnitName { name: s.to_owned(), reason });
                }
                match split_once(stem, '@') {
                    Some((prefix, instance)) => {
                        if prefix.len() == 0 {
                            return Err(
                                ParseError::InvalidUnitName {
                                    name: s.to_owned(),
                                    reason: "empty prefix before '@'",
                                },
                            );
                        }
                        Ok(
                            UnitName {
                                prefix: string_of(prefix),
                                instance: Some(string_of(instance)),
                                kind,
                            },
                        )
                    },
                    None => Ok(UnitName { prefix: string_of(stem), instance: None, kind }),
                }
            },
        }
    }

    /// Try to read a unit name from a file system path's basename.
    pub fn from_path(p: &str) -> (r: Result<Self, ParseError>)
        ensures
            name_result(r) == parse_path_name(p@),
    {
        match file_name(p) {
            Some(f) => UnitName::from_str(f.as_str()),
            None => Err(
                ParseError::InvalidUnitName { name: p.to_owned(), reason: "non-utf8 filename" },
            ),
        }
    }

    /// Whether two names are the same.
    pub fn same_as(&self, other: &UnitName) -> (r: bool)
        ensures
            r == (self@ == other@),
    {
        if self.kind != other.kind || !same(self.prefix.as_str(), other.prefix.as_str()) {
            return false;
        }
        match (&self.instance, &other.instance) {
            (None, None) => true,
            (Some(a), Some(b)) => same(a.as_str(), b.as_str()),
            _ => false,
        }
    }
}

// ---------------------------------------------------------------------
// Order
// ---------------------------------------------------------------------

/// Whether `a` comes before `b` in the order of texts, character by character.
pub open spec fn text_before(a: Seq<char>, b: Seq<char>) -> bool
    decreases a.len(),
{
    if b.len() == 0 {
        false
    } else if a.len() == 0 {
        true
    } else if a[0] == b[0] {
        text_before(a.skip(1), b.skip(1))
    } else {
        (a[0] as int) < (b[0] as int)
    }
}

/// The order of instances: none before any, then by text.
pub open spec fn instance_before(a: Option<Seq<char>>, b: Option<Seq<char>>) -> bool {
    match (a, b) {
        (None, Some(_)) => true,
        (Some(x), Some(y)) => text_before(x, y),
        _ => false,
    }
}

/// The order of names: by prefix, then by instance, then by kind.
pub open spec fn name_before(a: NameView, b: NameView) -> bool {
    if a.prefix != b.prefix {
        text_before(a.prefix, b.prefix)
    } else if a.instance != b.instance {
        instance_before(a.instance, b.instance)
    } else {
        kind_rank(a.kind) < kind_rank(b.kind)
    }
}

/// Whether a text comes before another.
pub fn text_comes_before(a: &str, b: &str) -> (r: bool)
    ensures
        r == text_before(a@, b@),
{
    let x = chars_of(a);
    let y = chars_of(b);
    let mut i: usize = 0;
    proof {
        assert(x@.skip(0) =~= x@);
        assert(y@.skip(0) =~= y@);
    }
    while i < x.len() && i < y.len() && x[i] == y[i]
        invariant
            i <= x.len(),
            i <= y.len(),
            text_before(x@, y@) == text_before(x@.skip(i as int), y@.skip(i as int)),
        decreases x.len() - i,
    {
        proof {
            assert(x@.skip(i as int).skip(1) =~= x@.skip(i + 1));
            assert(y@.skip(i as int).skip(1) =~= y@.skip(i + 1));
        }
        i = i + 1;
    }
    if i >= y.len() {
        false
    } else if i >= x.len() {
        true
    } else {
        char_code(x[i]) < char_code(y[i])
    }
}

impl UnitName {
    /// Whether this name comes before another.
    pub fn comes_before(&self, other: &UnitName) -> (r: bool)
        ensures
            r == name_before(self@, other@),
    {
        if !same(self.prefix.as_str(), other.prefix.as_str()) {
            return text_comes_before(self.prefix.as_str(), other.prefix.as_str());
        }
        match (&self.instance, &other.instance) {
            (None, None) => self.kind.rank() < other.kind.rank(),
            (None, Some(_)) => true,
            (Some(_), None) => false,
            (Some(a), Some(b)) => {
                if same(a.as_str(), b.as_str()) {
                    self.kind.rank() < other.kind.rank()
                } else {
                    text_comes_before(a.as_str(), b.as_str())
                }
            },
        }
    }
}

pub proof fn lemma_text_before_total(a: Seq<char>, b: Seq<char>)
    ensures
        !text_before(a, a),
        text_before(a, b) ==> !text_before(b, a),
        a != b ==> text_before(a, b) || text_before(b, a),
    decreases a.len(),
{
    if a.len() > 0 {
        lemma_text_before_total(a.skip(1), a.skip(1));
    }
    if a.len() > 0 && b.len() > 0 && a[0] == b[0] {
        lemma_text_before_total(a.skip(1), b.skip(1));
        if a.skip(1) == b.skip(1) {
            assert(a =~= seq![a[0]] + a.skip(1));
            assert(b =~= seq![b[0]] + b.skip(1));
            assert(a == b);
        }
    }
    if a.len() == 0 && b.len() == 0 {
        assert(a =~= b);
    }
}

pub proof fn lemma_text_before_transitive(a: Seq<char>, b: Seq<char>, c: Seq<char>)
    requires
        text_before(a, b),
        text_before(b, c),
    ensures
        text_before(a, c),
    decreases a.len(),
{
    if a.len() > 0 && b.len() > 0 && c.len() > 0 && a[0] == b[0] && b[0] == c[0] {
        lemma_text_before_transitive(a.skip(1), b.skip(1), c.skip(1));
    }
}

/// The order of names is total and strict.
pub proof fn name_order_is_total(a: NameView, b: NameView)
    ensures
        !name_before(a, a),
        name_before(a, b) ==> !name_before(b, a),
        a != b ==> name_before(a, b) || name_before(b, a),
{
    lemma_text_before_total(a.prefix, b.prefix);
    match (a.instance, b.instance) {
        (Some(x), Some(y)) => {
            lemma_text_before_total(x, y);
        },
        _ => {},
    }
}

/// The order of names is transitive.
pub proof fn name_order_is_transitive(a: NameView, b: NameView, c: NameView)
    requires
        name_before(a, b),
        name_before(b, c),
    ensures
        name_before(a, c),
{
    lemma_text_before_total(a.prefix, b.prefix);
    lemma_text_before_total(b.prefix, c.prefix);
    if a.prefix != b.prefix && b.prefix != c.prefix {
        lemma_text_before_transitive(a.prefix, b.prefix, c.prefix);
        lemma_text_before_total(a.prefix, c.prefix);
    } else if a.prefix == b.prefix && b.prefix == c.prefix {
        match (a.instance, b.instance, c.instance) {
            (Some(x), Some(y), Some(z)) => {
                lemma_text_before_total(x, y);
                lemma_text_before_total(y, z);
                lemma_text_before_total(x, z);
                if x != y && y != z {
                    lemma_text_before_transitive(x, y, z);
                }
            },
            _ => {},
        }
    }
}

// ---------------------------------------------------------------------
// Reading back
// ---------------------------------------------------------------------

/// Names that a text can stand for: a prefix that is not empty and holds no
/// `@`, and no white space.
pub open spec fn is_proper(n: NameView) -> bool {
    &&& n.prefix.len() > 0
    &&& !n.prefix.contains('@')
    &&& !has_space(n.prefix)
    &&& n.instance is Some ==> !has_space(n.instance->Some_0)
}

proof fn lemma_kind_and_stem(s: Seq<char>, kind: UnitKind)
    requires
        text::finishes_with(s, suffix_text(kind)),
    ensures
        kind_and_stem(s) == Some((kind, s.take(s.len() - suffix_text(kind).len()))),
{
    lemma_suffixes_differ();
    assert forall|other: UnitKind| #[trigger]
        text::finishes_with(s, suffix_text(other)) implies other == kind by {
        let p = suffix_text(kind);
        let q = suffix_text(other);
        lemma_suffix_shape(kind);
        lemma_suffix_shape(other);
        if p.len() < q.len() {
            assert(s[s.len() - p.len()] == p[0]);
            assert(s[s.len() - p.len()] == q[q.len() - p.len()]);
        } else if q.len() < p.len() {
            assert(s[s.len() - q.len()] == q[0]);
            assert(s[s.len() - q.len()] == p[p.len() - q.len()]);
        }
    }
}

/// A parsed name reads back: its text is the text that it was parsed from.
pub proof fn parsed_name_reads_back(s: Seq<char>)
    requires
        parse_name(s) is Ok,
    ensures
        name_text(parse_name(s)->Ok_0) == s,
        is_proper(parse_name(s)->Ok_0),
{
    let (kind, stem) = kind_and_stem(s)->Some_0;
    let suffix = suffix_text(kind);
    assert(s.skip(s.len() - suffix.len()) == suffix);
    assert(stem + suffix =~= s);
    text::lemma_first_index(stem, '@');
    reveal_strlit("@");
    let i = text::first_index(stem, '@');
    if i < stem.len() {
        assert(stem.take(i) + "@"@ + stem.skip(i + 1) =~= stem);
        let p = stem.take(i);
        let q = stem.skip(i + 1);
        assert(!p.contains('@'));
        assert forall|j: int| 0 <= j < p.len() implies !text::is_space(#[trigger] p[j]) by {
            assert(p[j] == stem[j]);
        }
        assert forall|j: int| 0 <= j < q.len() implies !text::is_space(#[trigger] q[j]) by {
            assert(q[j] == stem[i + 1 + j]);
        }
    }
}

/// A proper name parses back: parsing its text gives the name.
pub proof fn proper_name_parses_back(n: NameView)
    requires
        is_proper(n),
    ensures
        parse_name(name_text(n)) == Ok::<NameView, Seq<char>>(n),
{
    let s = name_text(n);
    let suffix = suffix_text(n.kind);
    reveal_strlit("@");
    let stem = match n.instance {
        None => n.prefix,
        Some(inst) => n.prefix + "@"@ + inst,
    };
    assert(s =~= stem + suffix);
    assert(s.skip(s.len() - suffix.len()) =~= suffix);
    lemma_kind_and_stem(s, n.kind);
    assert(s.take(s.len() - suffix.len()) =~= stem);
    assert forall|j: int| 0 <= j < stem.len() implies !text::is_space(#[trigger] stem[j]) by {
        if j < n.prefix.len() {
            assert(stem[j] == n.prefix[j]);
        } else if j > n.prefix.len() {
            assert(stem[j] == n.instance->Some_0[j - n.prefix.len() - 1]);
        }
    }
    assert forall|j: int| 0 <= j < n.prefix.len() implies stem[j] != '@' by {
        assert(stem[j] == n.prefix[j]);
    }
    text::lemma_first_index_is(stem, '@', n.prefix.len() as int);
    match n.instance {
        None => {},
        Some(inst) => {
            assert(stem.take(n.prefix.len() as int) =~= n.prefix);
            assert(stem.skip(n.prefix.len() as int + 1) =~= inst);
        },
    }
}

/// Two proper names with the same text are the same name.
pub proof fn name_text_is_injective(a: NameView, b: NameView)
    requires
        is_proper(a),
        is_proper(b),
        name_text(a) == name_text(b),
    ensures
        a == b,
{
    proper_name_parses_back(a);
    proper_name_parses_back(b);
}

} // verus!
