//! Where a new terminal starts. Herdr owns the policy: it is read from its
//! configuration, and whatever is uncertain keeps the directory of the pane
//! one came from.

use crate::bytes::{
    absolute, copy_bytes, equal_paths, is_absolute, join, joined, opt_bytes, opt_vec, paths_equal,
};
use crate::text::{
    chars_of, opt_text, same, starts_with, trim, trimmed,
};
use crate::toml_doc::{as_text, entry, is_table, parse_toml, toml_document, toml_tree, TomlTree};
use vstd::prelude::*;
use vstd::utf8::{decode_utf8, encode_utf8, valid_utf8};

verus! {

/// What the setting `terminal.new_cwd` asks for.
#[derive(Debug, PartialEq, Eq)]
pub enum Policy {
    Follow,
    Home,
    Current,
    Path(String),
}

pub enum PolicyText {
    Follow,
    Home,
    Current,
    Path(Seq<char>),
}

impl View for Policy {
    type V = PolicyText;

    open spec fn view(&self) -> PolicyText {
        match self {
            Policy::Follow => PolicyText::Follow,
            Policy::Home => PolicyText::Home,
            Policy::Current => PolicyText::Current,
            Policy::Path(p) => PolicyText::Path(p@),
        }
    }
}

pub open spec fn opt_policy(p: Option<Policy>) -> Option<PolicyText> {
    match p {
        Some(q) => Some(q@),
        None => None,
    }
}

// --- the setting ------------------------------------------------------------

/// What a configuration says under `terminal.new_cwd`.
#[derive(Debug, PartialEq, Eq)]
pub enum Setting {
    /// nothing
    Unset,
    /// something that is no text
    Unreadable,
    Text(String),
}

pub enum SettingText {
    Unset,
    Unreadable,
    Text(Seq<char>),
}

impl View for Setting {
    type V = SettingText;

    open spec fn view(&self) -> SettingText {
        match self {
            Setting::Unset => SettingText::Unset,
            Setting::Unreadable => SettingText::Unreadable,
            Setting::Text(t) => SettingText::Text(t@),
        }
    }
}

/// What a document says under `terminal.new_cwd`.
pub open spec fn setting_in(doc: TomlTree) -> SettingText {
    match doc.get("terminal"@) {
        None => SettingText::Unset,
        Some(terminal) => if terminal is Table {
            match terminal.get("new_cwd"@) {
                None => SettingText::Unset,
                Some(value) => match value.text() {
                    Some(t) => SettingText::Text(t),
                    None => SettingText::Unreadable,
                },
            }
        } else {
            SettingText::Unreadable
        },
    }
}

/// The policy that a text names: one of the words, with white space around it
/// or not, else a path, which is kept as it is written.
pub open spec fn policy_named(raw: Seq<char>) -> PolicyText {
    let word = trimmed(raw);
    if word.len() == 0 || word == "follow"@ {
        PolicyText::Follow
    } else if word == "home"@ {
        PolicyText::Home
    } else if word == "current"@ {
        PolicyText::Current
    } else {
        PolicyText::Path(raw)
    }
}

/// The policy of a setting; none where it cannot be read.
pub open spec fn policy_set(setting: SettingText) -> Option<PolicyText> {
    match setting {
        SettingText::Unset => Some(PolicyText::Follow),
        SettingText::Unreadable => None,
        SettingText::Text(raw) => Some(policy_named(raw)),
    }
}

/// The policy of a configuration; none where it cannot be read.
pub open spec fn policy_in(doc: Option<TomlTree>) -> Option<PolicyText> {
    match doc {
        Some(d) => policy_set(setting_in(d)),
        None => None,
    }
}

/// The policy of a setting; none where it cannot be read.
pub fn policy_of(setting: &Setting) -> (r: Option<Policy>)
    ensures
        opt_policy(r) == policy_set(setting@),
{
    match setting {
        Setting::Unset => Some(Policy::Follow),
        Setting::Unreadable => None,
        Setting::Text(raw) => {
            let word = trim(raw.as_str());
            if word.as_str().is_empty() || same(word.as_str(), "follow") {
                Some(Policy::Follow)
            } else if same(word.as_str(), "home") {
                Some(Policy::Home)
            } else if same(word.as_str(), "current") {
                Some(Policy::Current)
            } else {
                Some(Policy::Path(raw.as_str().to_owned()))
            }
        },
    }
}

/// What a parsed configuration says under `terminal.new_cwd`.
pub fn read_setting(config: &toml::Value) -> (r: Setting)
    ensures
        r@ == setting_in(toml_tree(*config)),
{
    match entry(config, "terminal") {
        None => Setting::Unset,
        Some(terminal) => {
            if !is_table(terminal) {
                return Setting::Unreadable;
            }
            match entry(terminal, "new_cwd") {
                None => Setting::Unset,
                Some(value) => match as_text(value) {
                    Some(t) => Setting::Text(t.to_owned()),
                    None => Setting::Unreadable,
                },
            }
        },
    }
}

/// The policy in the text of a configuration. Nothing said means to follow;
/// none is given for what cannot be read.
pub fn parse(text: &str) -> (r: Option<Policy>)
    ensures
        opt_policy(r) == policy_in(toml_document(text@)),
{
    match parse_toml(text) {
        Some(config) => policy_of(&read_setting(&config)),
        None => None,
    }
}

/// A create of this kind takes over the directory of the pane one came from.
pub open spec fn inherits(kind: Seq<char>, policy: Option<PolicyText>) -> bool {
    kind == "split"@ || policy is None || policy == Some(PolicyText::Follow)
}

/// Whether a create of this kind takes over the directory of the pane one came
/// from: a split does always, a tab or a workspace unless a policy says
/// otherwise.
pub fn inherit(kind: &str, policy: Option<&Policy>) -> (r: bool)
    ensures
        r == inherits(
            kind@,
            match policy {
                Some(p) => Some(p@),
                None => None,
            },
        ),
{
    if same(kind, "split") {
        return true;
    }
    match policy {
        None => true,
        Some(Policy::Follow) => true,
        Some(_) => false,
    }
}

// --- fixed paths ------------------------------------------------------------

/// The path that a policy spells out, with the home directory put in.
pub open spec fn spelled_path(policy: PolicyText, home: Seq<u8>) -> Option<Seq<u8>> {
    match policy {
        PolicyText::Home => Some(home),
        PolicyText::Path(p) => if p == "~"@ {
            Some(home)
        } else if "~/"@.is_prefix_of(p) {
            Some(joined(home, encode_utf8(p.skip(2))))
        } else {
            Some(encode_utf8(p))
        },
        // the directory of the server is not known here
        PolicyText::Follow | PolicyText::Current => None,
    }
}

/// The one directory that a policy fixes, where it is absolute.
pub open spec fn fixed(policy: PolicyText, home: Seq<u8>) -> Option<Seq<u8>> {
    match spelled_path(policy, home) {
        Some(p) => if is_absolute(p) {
            Some(p)
        } else {
            None
        },
        None => None,
    }
}

/// The one directory that a policy fixes, given the home directory.
pub fn fixed_path(policy: &Policy, home: &[u8]) -> (r: Option<Vec<u8>>)
    ensures
        opt_vec(r) == fixed(policy@, home@),
{
    let path = match policy {
        Policy::Home => copy_bytes(home),
        Policy::Path(p) => {
            let cs = chars_of(p.as_str());
            let tilde_slash = chars_of("~/");
            if same(p.as_str(), "~") {
                copy_bytes(home)
            } else if starts_with(cs.as_slice(), tilde_slash.as_slice()) {
                proof {
                    reveal_strlit("~/");
                }
                let rest = p.as_str().substring_char(2, cs.len());
                assert(rest@ =~= p@.skip(2));
                join(home, rest.as_bytes())
            } else {
                copy_bytes(p.as_str().as_bytes())
            }
        },
        Policy::Follow | Policy::Current => {
            return None;
        },
    };
    if absolute(path.as_slice()) {
        Some(path)
    } else {
        None
    }
}

/// Two paths name the same place: they are equal, or both could be resolved
/// and came out equal.
pub open spec fn same_place(
    a: Seq<u8>,
    b: Seq<u8>,
    real_a: Option<Seq<u8>>,
    real_b: Option<Seq<u8>>,
) -> bool {
    equal_paths(a, b) || match (real_a, real_b) {
        (Some(x), Some(y)) => equal_paths(x, y),
        _ => false,
    }
}

/// Whether two paths name the same place, given what each resolves to on disk,
/// where it does.
pub fn same_path(a: &[u8], b: &[u8], real_a: Option<&[u8]>, real_b: Option<&[u8]>) -> (r: bool)
    ensures
        r == same_place(a@, b@, opt_bytes(real_a), opt_bytes(real_b)),
{
    if paths_equal(a, b) {
        return true;
    }
    match (real_a, real_b) {
        (Some(x), Some(y)) => paths_equal(x, y),
        _ => false,
    }
}

// --- where the configuration lies -------------------------------------------

/// Position of the first line feed from `from` on, or the end.
pub open spec fn line_end(s: Seq<char>, from: int) -> int
    decreases s.len() - from,
{
    if from >= s.len() {
        s.len() as int
    } else if s[from] == '\n' {
        from
    } else {
        line_end(s, from + 1)
    }
}

/// A line without the carriage return before its line feed.
pub open spec fn without_return(s: Seq<char>) -> Seq<char> {
    if s.len() > 0 && s.last() == '\r' {
        s.drop_last()
    } else {
        s
    }
}

/// The lines of a text.
pub open spec fn lines(s: Seq<char>) -> Seq<Seq<char>>
    decreases s.len(),
    via lines_decreases
{
    if s.len() == 0 {
        Seq::empty()
    } else {
        let end = line_end(s, 0);
        if end == s.len() {
            seq![s]
        } else {
            seq![without_return(s.take(end))] + lines(s.skip(end + 1))
        }
    }
}

#[via_fn]
proof fn lines_decreases(s: Seq<char>) {
    lemma_line_end(s, 0);
}

proof fn lemma_line_end(s: Seq<char>, from: int)
    requires
        0 <= from,
    ensures
        from <= s.len() ==> from <= line_end(s, from) <= s.len(),
        line_end(s, from) < s.len() ==> s[line_end(s, from)] == '\n',
    decreases s.len() - from,
{
    if from < s.len() && s[from] != '\n' {
        lemma_line_end(s, from + 1);
    }
}

/// The rest of the first line that starts with `key`.
pub open spec fn first_after(all: Seq<Seq<char>>, key: Seq<char>) -> Option<Seq<char>>
    decreases all.len(),
{
    if all.len() == 0 {
        None
    } else if key.is_prefix_of(all[0]) {
        Some(all[0].skip(key.len() as int))
    } else {
        first_after(all.drop_first(), key)
    }
}

/// The configuration that a help text names, where it is an absolute path.
pub open spec fn config_named(help: Seq<char>) -> Option<Seq<char>> {
    match first_after(lines(help), "Config: "@) {
        Some(path) => if path.len() > 0 && path[0] == '/' {
            Some(path)
        } else {
            None
        },
        None => None,
    }
}

proof fn lemma_line_end_at(s: Seq<char>, from: int, end: int)
    requires
        0 <= from <= end <= s.len(),
        forall|j: int| from <= j < end ==> s[j] != '\n',
        end < s.len() ==> s[end] == '\n',
    ensures
        line_end(s.skip(from), 0) == end - from,
{
    lemma_line_end_after(s.skip(from), 0, end - from);
}

proof fn lemma_line_end_after(s: Seq<char>, from: int, end: int)
    requires
        0 <= from <= end <= s.len(),
        forall|j: int| from <= j < end ==> s[j] != '\n',
        end < s.len() ==> s[end] == '\n',
    ensures
        line_end(s, from) == end,
    decreases end - from,
{
    if from < end {
        lemma_line_end_after(s, from + 1, end);
    }
}

/// The configuration that a binary's help text names, where it is an absolute
/// path.
pub fn path_from_help(help: &str) -> (r: Option<String>)
    ensures
        opt_text(r) == config_named(help@),
{
    let cs = chars_of(help);
    let key = chars_of("Config: ");
    let mut from: usize = 0;
    assert(cs@.skip(0) =~= cs@);
    while from < cs.len()
        invariant
            cs@ == help@,
            key@ == "Config: "@,
            from <= cs@.len(),
            first_after(lines(cs@), key@) == first_after(lines(cs@.skip(from as int)), key@),
        decreases cs@.len() - from,
    {
        let mut end: usize = from;
        while end < cs.len() && cs[end] != '\n'
            invariant
                from <= end <= cs@.len(),
                forall|j: int| from <= j < end ==> cs@[j] != '\n',
            decreases cs@.len() - end,
        {
            end += 1;
        }
        let last: bool = end == cs.len();
        let to: usize = if !last && end > from && cs[end - 1] == '\r' {
            end - 1
        } else {
            end
        };
        let line = help.substring_char(from, to);
        let ghost here = cs@.skip(from as int);
        proof {
            lemma_line_end_at(cs@, from as int, end as int);
            if last {
                assert(line@ =~= here);
                assert(lines(here)[0] == line@);
                assert(lines(here).drop_first() =~= Seq::empty());
            } else {
                assert(line@ =~= without_return(here.take(end - from)));
                assert(here.skip(end - from + 1) =~= cs@.skip(end + 1));
                assert(lines(here)[0] == line@);
                assert(lines(here).drop_first() =~= lines(cs@.skip(end + 1)));
            }
        }
        let lc = chars_of(line);
        if starts_with(lc.as_slice(), key.as_slice()) {
            let path = line.substring_char(key.len(), lc.len());
            assert(path@ =~= line@.skip(key@.len() as int));
            if key.len() < lc.len() && lc[key.len()] == '/' {
                return Some(path.to_owned());
            }
            return None;
        }
        if last {
            proof {
                assert(first_after(Seq::empty(), key@) is None);
            }
            return None;
        }
        from = end + 1;
    }
    assert(cs@.skip(from as int) =~= Seq::empty());
    None
}

/// `std::str::from_utf8`: the text that some bytes encode, nothing where they
/// are no UTF-8.
#[verifier::external_body]
fn utf8_text(bytes: &[u8]) -> (r: Option<&str>)
    ensures
        match r {
            Some(s) => valid_utf8(bytes@) && encode_utf8(s@) == bytes@,
            None => !valid_utf8(bytes@),
        },
{
    std::str::from_utf8(bytes).ok()
}

/// The configuration that a run of a binary names.
pub open spec fn run_named(succeeded: bool, stdout: Seq<u8>) -> Option<Seq<char>> {
    if succeeded && valid_utf8(stdout) {
        config_named(decode_utf8(stdout))
    } else {
        None
    }
}

/// The configuration that a binary names when it is asked for help: only a run
/// that succeeded and printed text counts.
pub fn path_from_output(succeeded: bool, stdout: &[u8]) -> (r: Option<String>)
    ensures
        opt_text(r) == (if succeeded && valid_utf8(stdout@) {
            config_named(decode_utf8(stdout@))
        } else {
            None
        }),
        opt_text(r) == run_named(succeeded, stdout@),
{
    if !succeeded {
        return None;
    }
    match utf8_text(stdout) {
        Some(help) => {
            proof {
                vstd::utf8::encode_utf8_decode_utf8(help@);
            }
            path_from_help(help)
        },
        None => None,
    }
}

/// Where to look for the local configuration.
#[derive(Debug, PartialEq, Eq)]
pub enum ConfigSource {
    /// in this file
    File(Vec<u8>),
    /// where this binary says
    Binary(Vec<u8>),
    Unknown,
}

pub enum SourceBytes {
    File(Seq<u8>),
    Binary(Seq<u8>),
    Unknown,
}

impl View for ConfigSource {
    type V = SourceBytes;

    open spec fn view(&self) -> SourceBytes {
        match self {
            ConfigSource::File(p) => SourceBytes::File(p@),
            ConfigSource::Binary(p) => SourceBytes::Binary(p@),
            ConfigSource::Unknown => SourceBytes::Unknown,
        }
    }
}

/// A path that is given and not empty.
pub open spec fn named_path(path: Option<Seq<u8>>) -> Option<Seq<u8>> {
    match path {
        Some(p) => if p.len() > 0 {
            Some(p)
        } else {
            None
        },
        None => None,
    }
}

/// Where to look for the local configuration.
pub open spec fn source_of(config: Option<Seq<u8>>, bin: Option<Seq<u8>>) -> SourceBytes {
    match named_path(config) {
        Some(c) => SourceBytes::File(c),
        None => match named_path(bin) {
            Some(b) => SourceBytes::Binary(b),
            None => SourceBytes::Unknown,
        },
    }
}

/// Where to look for the local configuration: in the file that the environment
/// names, else where the binary says that it names. Empty values name nothing.
pub fn config_source(config_path: Option<&[u8]>, bin_path: Option<&[u8]>) -> (r: ConfigSource)
    ensures
        r@ == (match named_path(opt_bytes(config_path)) {
            Some(c) => SourceBytes::File(c),
            None => match named_path(opt_bytes(bin_path)) {
                Some(b) => SourceBytes::Binary(b),
                None => SourceBytes::Unknown,
            },
        }),
        r@ == source_of(opt_bytes(config_path), opt_bytes(bin_path)),
{
    if let Some(c) = config_path {
        if c.len() > 0 {
            return ConfigSource::File(copy_bytes(c));
        }
    }
    if let Some(b) = bin_path {
        if b.len() > 0 {
            return ConfigSource::Binary(copy_bytes(b));
        }
    }
    ConfigSource::Unknown
}

/// The one directory that a configuration fixes.
pub open spec fn fixed_by(doc: Option<TomlTree>, home: Seq<u8>) -> Option<Seq<u8>> {
    match policy_in(doc) {
        Some(p) => fixed(p, home),
        None => None,
    }
}

/// The one directory that the text of a configuration fixes.
pub fn fixed_path_in(text: &str, home: &[u8]) -> (r: Option<Vec<u8>>)
    ensures
        opt_vec(r) == (match policy_in(toml_document(text@)) {
            Some(p) => fixed(p, home@),
            None => None,
        }),
        opt_vec(r) == fixed_by(toml_document(text@), home@),
{
    match parse(text) {
        Some(policy) => fixed_path(&policy, home),
        None => None,
    }
}

/// A shell script that prints the configuration whose path it reads. The path
/// is data to it, never source. A file that is not there is an empty one; one
/// that cannot be read is an error.
pub const READER: &'static str = "IFS= read -r config || exit 1
case \"$config\" in /*) ;; *) exit 1 ;; esac
if [ -f \"$config\" ]; then cat \"$config\"; elif [ ! -e \"$config\" ]; then :; else exit 1; fi";

/// The command that prints the configuration of a remote binary.
pub open spec fn reader_command(bin: Seq<char>, quoted_reader: Seq<char>) -> Seq<char> {
    bin + " --help | sed -n 's/^Config: //p' | sh -c "@ + quoted_reader
}

/// The command that prints the configuration of a remote binary, given the
/// reader script quoted for the shell.
pub fn remote_command(bin: &str, quoted_reader: &str) -> (r: String)
    ensures
        r@ == bin@ + " --help | sed -n 's/^Config: //p' | sh -c "@ + quoted_reader@,
        r@ == reader_command(bin@, quoted_reader@),
{
    let mut r = bin.to_owned();
    r.append(" --help | sed -n 's/^Config: //p' | sh -c ");
    r.append(quoted_reader);
    r
}

// --- laws -------------------------------------------------------------------

/// Whatever is uncertain keeps the directory of the pane one came from: without
/// a readable configuration every create inherits it.
pub proof fn law_uncertainty_inherits(kind: Seq<char>, doc: Option<TomlTree>)
    requires
        policy_in(doc) is None,
    ensures
        inherits(kind, policy_in(doc)),
{
}

/// A policy that fixes a directory is one that a tab or a workspace does not
/// inherit past, and the directory is absolute.
pub proof fn law_fixed_directory_is_absolute_and_not_inherited(
    kind: Seq<char>,
    policy: PolicyText,
    home: Seq<u8>,
)
    requires
        fixed(policy, home) is Some,
    ensures
        is_absolute(fixed(policy, home)->0),
        inherits(kind, Some(policy)) == (kind == "split"@),
{
}

/// The words of a policy mean the same with white space around them.
pub proof fn law_white_space_around_a_word_is_ignored(a: Seq<char>, b: Seq<char>)
    requires
        trimmed(a) == trimmed(b),
        policy_named(a) !is Path,
    ensures
        policy_named(b) == policy_named(a),
{
}

/// To be the same place goes both ways, and holds of a path and itself.
pub proof fn law_same_place_is_mutual(
    a: Seq<u8>,
    b: Seq<u8>,
    real_a: Option<Seq<u8>>,
    real_b: Option<Seq<u8>>,
)
    ensures
        same_place(a, a, real_a, real_a),
        same_place(a, b, real_a, real_b) == same_place(b, a, real_b, real_a),
{
}

/// What a configuration says is the text of `new_cwd` in its table `terminal`.
/// Where either is missing it says nothing; where the one is no table or the other
/// no text, it cannot be read.
pub proof fn law_setting_is_the_text_of_its_entry(
    doc: Map<Seq<char>, TomlTree>,
    terminal: Map<Seq<char>, TomlTree>,
    t: Seq<char>,
)
    ensures
        !doc.contains_key("terminal"@) ==> setting_in(TomlTree::Table(doc)) is Unset,
        doc.contains_key("terminal"@) && doc["terminal"@] !is Table ==> setting_in(
            TomlTree::Table(doc),
        ) is Unreadable,
        doc.contains_key("terminal"@) && doc["terminal"@] == TomlTree::Table(terminal) ==> {
            let said = setting_in(TomlTree::Table(doc));
            &&& !terminal.contains_key("new_cwd"@) <==> said is Unset
            &&& said == SettingText::Text(t) <==> terminal.contains_key("new_cwd"@)
                && terminal["new_cwd"@] == TomlTree::Text(t)
            &&& said is Unreadable <==> terminal.contains_key("new_cwd"@) && terminal["new_cwd"@]
                !is Text
        },
{
}

/// Blank text and the word `follow` mean to follow, `home` and `current` what they
/// say, with white space around them or not. Any other text is a path, kept as it
/// is written.
pub proof fn law_words_name_policies(raw: Seq<char>)
    ensures
        policy_named(raw) is Follow <==> trimmed(raw).len() == 0 || trimmed(raw) == "follow"@,
        policy_named(raw) is Home <==> trimmed(raw) == "home"@,
        policy_named(raw) is Current <==> trimmed(raw) == "current"@,
        policy_named(raw) matches PolicyText::Path(p) ==> p == raw,
        policy_set(SettingText::Text(raw)) == Some(policy_named(raw)),
{
    reveal_strlit("follow");
    reveal_strlit("home");
    reveal_strlit("current");
    assert("follow"@[0] == 'f' && "home"@[0] == 'h' && "current"@[0] == 'c');
}

/// A configuration that says nothing means to follow; one that cannot be parsed, or
/// says something that cannot be read, has no policy.
pub proof fn law_silence_means_to_follow(doc: TomlTree)
    ensures
        policy_in(None) is None,
        setting_in(doc) is Unset ==> policy_in(Some(doc)) == Some(PolicyText::Follow),
        setting_in(doc) is Unreadable ==> policy_in(Some(doc)) is None,
        setting_in(doc) matches SettingText::Text(t) ==> policy_in(Some(doc)) == Some(
            policy_named(t),
        ),
{
}

/// A split always takes the directory over. A tab or a workspace, or whatever else
/// is created, takes it over without a policy or under the one to follow, and under
/// no other.
pub proof fn law_only_a_policy_stops_inheritance(kind: Seq<char>, path: Seq<char>)
    ensures
        inherits("split"@, None),
        inherits("split"@, Some(PolicyText::Follow)),
        inherits("split"@, Some(PolicyText::Home)),
        inherits("split"@, Some(PolicyText::Current)),
        inherits("split"@, Some(PolicyText::Path(path))),
        inherits(kind, None),
        inherits(kind, Some(PolicyText::Follow)),
        kind != "split"@ ==> !inherits(kind, Some(PolicyText::Home)),
        kind != "split"@ ==> !inherits(kind, Some(PolicyText::Current)),
        kind != "split"@ ==> !inherits(kind, Some(PolicyText::Path(path))),
{
}

/// The home policy and the path `~` fix the home directory, a path behind `~/` fixes
/// that path seen from there, and any other path fixes itself; each only where it
/// comes out absolute. To follow and to stay fix nothing.
pub proof fn law_policies_fix_absolute_paths(home: Seq<u8>, p: Seq<char>)
    ensures
        home.len() > 0 && home[0] == 0x2f ==> fixed(PolicyText::Home, home) == Some(home),
        home.len() > 0 && home[0] == 0x2f ==> fixed(PolicyText::Path("~"@), home) == Some(home),
        !(home.len() > 0 && home[0] == 0x2f) ==> fixed(PolicyText::Home, home) is None,
        !(home.len() > 0 && home[0] == 0x2f) ==> fixed(PolicyText::Path("~"@), home) is None,
        fixed(PolicyText::Path("~/"@ + p), home) == (if is_absolute(joined(home, encode_utf8(p))) {
            Some(joined(home, encode_utf8(p)))
        } else {
            None
        }),
        p != "~"@ && !"~/"@.is_prefix_of(p) ==> fixed(PolicyText::Path(p), home) == (
        if is_absolute(encode_utf8(p)) {
            Some(encode_utf8(p))
        } else {
            None
        }),
        fixed(PolicyText::Follow, home) is None,
        fixed(PolicyText::Current, home) is None,
{
    reveal_strlit("~");
    reveal_strlit("~/");
    let q = "~/"@ + p;
    assert("~/"@ =~= q.subrange(0, 2));
    assert(q.skip(2) =~= p);
    assert(q.len() >= 2 && "~"@.len() == 1);
}

/// A configuration fixes what its policy fixes, and nothing where it has none.
pub proof fn law_configuration_fixes_what_its_policy_does(doc: Option<TomlTree>, home: Seq<u8>)
    ensures
        policy_in(doc) is None ==> fixed_by(doc, home) is None,
        policy_in(doc) matches Some(p) ==> fixed_by(doc, home) == fixed(p, home),
{
}

/// Two paths that are written the same name the same place. Two that are not do so
/// exactly where both could be resolved, to the same path.
pub proof fn law_same_place_goes_by_what_resolves(
    a: Seq<u8>,
    b: Seq<u8>,
    x: Seq<u8>,
    y: Seq<u8>,
    real_a: Option<Seq<u8>>,
    real_b: Option<Seq<u8>>,
)
    ensures
        equal_paths(a, b) ==> same_place(a, b, real_a, real_b),
        !equal_paths(a, b) ==> same_place(a, b, Some(x), Some(y)) == equal_paths(x, y),
        !equal_paths(a, b) && (real_a is None || real_b is None) ==> !same_place(
            a,
            b,
            real_a,
            real_b,
        ),
{
}

/// A line ends at its line feed, and a carriage return right before that is no part
/// of it; what follows is the lines after it. What has no line feed is one line, and
/// nothing is none.
pub proof fn law_lines_end_at_line_feeds(line: Seq<char>, rest: Seq<char>)
    requires
        forall|i: int| 0 <= i < line.len() ==> #[trigger] line[i] != '\n',
    ensures
        lines(line + seq!['\n'] + rest) == seq![
            if line.len() > 0 && line.last() == '\r' {
                line.drop_last()
            } else {
                line
            },
        ] + lines(rest),
        lines(line) == (if line.len() > 0 {
            seq![line]
        } else {
            Seq::empty()
        }),
{
    let s = line + seq!['\n'] + rest;
    assert forall|j: int| 0 <= j < line.len() implies s[j] != '\n' by {
        assert(s[j] == line[j]);
    }
    assert(s[line.len() as int] == '\n');
    lemma_line_end_after(s, 0, line.len() as int);
    assert(s.take(line.len() as int) =~= line);
    assert(s.skip((line.len() + 1) as int) =~= rest);
    lemma_line_end_after(line, 0, line.len() as int);
}

/// Lines that each end with a line feed.
pub open spec fn as_lines(all: Seq<Seq<char>>) -> Seq<char>
    decreases all.len(),
{
    if all.len() == 0 {
        Seq::empty()
    } else {
        all[0] + seq!['\n'] + as_lines(all.drop_first())
    }
}

/// A help text names the configuration in its first line that starts with
/// `Config: `, wherever that line stands: the rest of it is the path, where that
/// starts with a slash; where it does not, none is named.
pub proof fn law_help_names_the_configuration(
    before: Seq<Seq<char>>,
    path: Seq<char>,
    after: Seq<char>,
)
    requires
        forall|k: int, i: int|
            0 <= k < before.len() && 0 <= i < before[k].len() ==> #[trigger] before[k][i] != '\n',
        forall|k: int|
            0 <= k < before.len() ==> !"Config: "@.is_prefix_of(#[trigger] before[k]),
        forall|i: int| 0 <= i < path.len() ==> #[trigger] path[i] != '\n',
        path.len() > 0 ==> path.last() != '\r',
    ensures
        config_named(as_lines(before) + "Config: "@ + path + seq!['\n'] + after) == (if path.len()
            > 0 && path[0] == '/' {
            Some(path)
        } else {
            None
        }),
    decreases before.len(),
{
    let key = "Config: "@;
    let help = as_lines(before) + key + path + seq!['\n'] + after;
    reveal_strlit("Config: ");
    if before.len() == 0 {
        let line = key + path;
        assert(help =~= line + seq!['\n'] + after);
        assert forall|i: int| 0 <= i < line.len() implies #[trigger] line[i] != '\n' by {
            if i >= key.len() {
                assert(line[i] == path[i - key.len()]);
            }
        }
        assert(line.last() != '\r');
        law_lines_end_at_line_feeds(line, after);
        assert(lines(help)[0] == line);
        assert(key =~= line.subrange(0, key.len() as int));
        assert(line.skip(key.len() as int) =~= path);
    } else {
        let line = before[0];
        let more = before.drop_first();
        let rest = as_lines(more) + key + path + seq!['\n'] + after;
        assert(help =~= line + seq!['\n'] + rest);
        assert forall|k: int, i: int|
            0 <= k < more.len() && 0 <= i < more[k].len() implies #[trigger] more[k][i] != '\n' by {
            assert(before[k + 1][i] != '\n');
        }
        assert forall|k: int| 0 <= k < more.len() implies !key.is_prefix_of(#[trigger] more[k]) by {
            assert(more[k] == before[k + 1]);
        }
        law_help_names_the_configuration(more, path, after);
        assert forall|i: int| 0 <= i < line.len() implies #[trigger] line[i] != '\n' by {
            assert(before[0][i] != '\n');
        }
        law_lines_end_at_line_feeds(line, rest);
        let first = lines(help)[0];
        assert(lines(help).drop_first() =~= lines(rest));
        assert(!key.is_prefix_of(first)) by {
            if key.is_prefix_of(first) {
                assert(key =~= line.subrange(0, key.len() as int)) by {
                    assert(key == first.subrange(0, key.len() as int));
                    assert forall|i: int| 0 <= i < key.len() implies key[i] == line[i] by {
                        assert(key[i] == first.subrange(0, key.len() as int)[i]);
                    }
                }
                assert(key.is_prefix_of(before[0]));
            }
        }
    }
}

/// A help text none of whose lines starts with `Config: ` names no configuration.
pub proof fn law_help_without_the_line_names_nothing(before: Seq<Seq<char>>)
    requires
        forall|k: int, i: int|
            0 <= k < before.len() && 0 <= i < before[k].len() ==> #[trigger] before[k][i] != '\n',
        forall|k: int|
            0 <= k < before.len() ==> !"Config: "@.is_prefix_of(#[trigger] before[k]),
    ensures
        config_named(as_lines(before)) is None,
    decreases before.len(),
{
    let key = "Config: "@;
    reveal_strlit("Config: ");
    if before.len() > 0 {
        let line = before[0];
        let more = before.drop_first();
        let help = as_lines(before);
        assert forall|k: int, i: int|
            0 <= k < more.len() && 0 <= i < more[k].len() implies #[trigger] more[k][i] != '\n' by {
            assert(before[k + 1][i] != '\n');
        }
        assert forall|k: int| 0 <= k < more.len() implies !key.is_prefix_of(#[trigger] more[k]) by {
            assert(more[k] == before[k + 1]);
        }
        law_help_without_the_line_names_nothing(more);
        assert forall|i: int| 0 <= i < line.len() implies #[trigger] line[i] != '\n' by {
            assert(before[0][i] != '\n');
        }
        law_lines_end_at_line_feeds(line, as_lines(more));
        let first = lines(help)[0];
        assert(lines(help).drop_first() =~= lines(as_lines(more)));
        assert(!key.is_prefix_of(first)) by {
            if key.is_prefix_of(first) {
                assert forall|i: int| 0 <= i < key.len() implies key[i] == line[i] by {
                    assert(key[i] == first.subrange(0, key.len() as int)[i]);
                }
                assert(key =~= line.subrange(0, key.len() as int));
                assert(key.is_prefix_of(before[0]));
            }
        }
    }
}

/// Only a run that succeeded and printed text counts, and then what it printed does.
pub proof fn law_only_a_good_run_counts(help: Seq<char>, stdout: Seq<u8>)
    ensures
        run_named(true, encode_utf8(help)) == config_named(help),
        run_named(false, stdout) is None,
        !valid_utf8(stdout) ==> run_named(true, stdout) is None,
{
    vstd::utf8::encode_utf8_valid_utf8(help);
    vstd::utf8::encode_utf8_decode_utf8(help);
}

/// The file that the environment names comes first, then the binary it names; an
/// empty value counts as none, and where both are none nothing is known.
pub proof fn law_named_file_comes_first(file: Seq<u8>, bin: Option<Seq<u8>>, other: Seq<u8>)
    ensures
        file.len() > 0 ==> source_of(Some(file), bin) == SourceBytes::File(file),
        other.len() > 0 ==> source_of(None, Some(other)) == SourceBytes::Binary(other),
        file.len() == 0 ==> source_of(Some(file), bin) == source_of(None, bin),
        other.len() == 0 ==> source_of(None, Some(other)) is Unknown,
        source_of(None, None) is Unknown,
{
}

/// The remote is asked for the help of its own binary, the path in it goes on as
/// data, and the reader script comes last, as it was quoted.
pub proof fn law_remote_command_reads_what_the_binary_names(bin: Seq<char>, reader: Seq<char>)
    ensures
        bin.is_prefix_of(reader_command(bin, reader)),
        reader.is_suffix_of(reader_command(bin, reader)),
        reader_command(bin, reader) == bin + " --help | sed -n 's/^Config: //p' | sh -c "@ + reader,
{
    let all = reader_command(bin, reader);
    assert(bin =~= all.subrange(0, bin.len() as int));
    assert(reader =~= all.subrange(all.len() - reader.len(), all.len() as int));
}

/// A policy and a setting are seen as what they are.
pub proof fn law_policies_are_seen_as_they_are(p: String, t: String)
    ensures
        opt_policy(Some(Policy::Path(p))) == Some(PolicyText::Path(p@)),
        opt_policy(Some(Policy::Follow)) == Some(PolicyText::Follow),
        opt_policy(Some(Policy::Home)) == Some(PolicyText::Home),
        opt_policy(Some(Policy::Current)) == Some(PolicyText::Current),
        opt_policy(None) is None,
        Setting::Text(t)@ == SettingText::Text(t@),
        Setting::Unset@ == SettingText::Unset,
        Setting::Unreadable@ == SettingText::Unreadable,
{
}

/// A source is seen as it is.
pub proof fn law_sources_are_seen_as_they_are(p: Vec<u8>)
    ensures
        ConfigSource::File(p)@ == SourceBytes::File(p@),
        ConfigSource::Binary(p)@ == SourceBytes::Binary(p@),
        ConfigSource::Unknown@ == SourceBytes::Unknown,
{
}

} // verus!
