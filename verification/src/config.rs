//! The configuration file.

use crate::number::{decimal, push_decimal};
use crate::protocol::text_model;
use crate::text::{
    after, before, chars_of, is_white_space, lemma_split_back, lines, reads, split_lines,
    split_once, text_of, trim, trim_end, trim_start, trimmed,
};
use vstd::prelude::*;
use vstd::string::StringExecFns;

verus! {

/// How the proxy is set up.
#[derive(Debug)]
pub struct Config {
    /// The file that is logged to, if there is one.
    pub log_path: Option<String>,
    /// The address that clients connect to.
    pub listen_addr: String,
    /// The address of the SOCKS5 server.
    pub socks_addr: String,
}

/// The model of a `Config`.
pub struct ConfigModel {
    pub log_path: Option<Seq<char>>,
    pub listen_addr: Seq<char>,
    pub socks_addr: Seq<char>,
}

impl View for Config {
    type V = ConfigModel;

    open spec fn view(&self) -> ConfigModel {
        ConfigModel {
            log_path: text_model(self.log_path),
            listen_addr: self.listen_addr@,
            socks_addr: self.socks_addr@,
        }
    }
}

// ---------------------------------------------------------------------------
// One line
// ---------------------------------------------------------------------------

/// What a line of the file is.
pub enum LineModel {
    /// An empty line or a comment.
    Nothing,
    /// A value for one of the keys.
    Setting { key: Seq<char>, value: Seq<char> },
    /// A line without an equals sign.
    NoEquals,
    /// A line without a value.
    NoValue { key: Seq<char> },
    /// A line with a key that there is not.
    UnknownKey { key: Seq<char> },
}

/// The keys that there are.
pub open spec fn is_key(key: Seq<char>) -> bool {
    key == "log_path"@ || key == "listen_addr"@ || key == "socks_addr"@
}

/// What a line of the file is. White space around the line, the key and the
/// value does not matter; a comment begins with a hash sign.
pub open spec fn line_model(line: Seq<char>) -> LineModel {
    let line = trim(line);
    let key = trim(before(line, '='));
    let value = trim(after(line, '='));
    if line.len() == 0 || line[0] == '#' {
        LineModel::Nothing
    } else if !line.contains('=') {
        LineModel::NoEquals
    } else if value.len() == 0 {
        LineModel::NoValue { key }
    } else if is_key(key) {
        LineModel::Setting { key, value }
    } else {
        LineModel::UnknownKey { key }
    }
}

/// The line is wrong.
pub open spec fn is_wrong(line: Seq<char>) -> bool {
    !(line_model(line) is Nothing || line_model(line) is Setting)
}

/// How the fault of a wrong line reads, given the number of the line.
pub open spec fn fault_text(line: Seq<char>, number: nat) -> Seq<char> {
    let prefix = "line "@ + decimal(number);
    match line_model(line) {
        LineModel::NoEquals => prefix + " is missing '='"@,
        LineModel::NoValue { key } => prefix + " has an empty value for "@ + key,
        LineModel::UnknownKey { key } => prefix + " has unknown key "@ + key,
        _ => Seq::empty(),
    }
}

/// The line sets `key`.
pub open spec fn sets(line: Seq<char>, key: Seq<char>) -> bool {
    line_model(line) matches LineModel::Setting { key: k, .. } && k == key
}

/// The value in a line that sets a key.
pub open spec fn set_value(line: Seq<char>) -> Seq<char> {
    line_model(line)->Setting_value
}

// ---------------------------------------------------------------------------
// All lines
// ---------------------------------------------------------------------------

/// The position of the first wrong line, or the number of lines.
pub open spec fn first_wrong(lines: Seq<Seq<char>>) -> int
    decreases lines.len(),
{
    if lines.len() == 0 || is_wrong(lines[0]) {
        0
    } else {
        1 + first_wrong(lines.drop_first())
    }
}

/// The value that the last of the lines that set `key` gives it.
pub open spec fn last_setting(lines: Seq<Seq<char>>, key: Seq<char>) -> Option<Seq<char>>
    decreases lines.len(),
{
    if lines.len() == 0 {
        None
    } else if sets(lines.last(), key) {
        Some(set_value(lines.last()))
    } else {
        last_setting(lines.drop_last(), key)
    }
}

/// What the lines of a file say, or what is wrong with them. The first wrong
/// line decides; without one, two of the keys must be set. Of several values
/// the last counts.
pub open spec fn config_of_lines(lines: Seq<Seq<char>>) -> Result<ConfigModel, Seq<char>> {
    let wrong = first_wrong(lines);
    if wrong < lines.len() {
        Err(fault_text(lines[wrong], (wrong + 1) as nat))
    } else {
        match (last_setting(lines, "listen_addr"@), last_setting(lines, "socks_addr"@)) {
            (None, _) => Err("listen_addr is required"@),
            (_, None) => Err("socks_addr is required"@),
            (Some(listen_addr), Some(socks_addr)) => Ok(
                ConfigModel {
                    log_path: last_setting(lines, "log_path"@),
                    listen_addr,
                    socks_addr,
                },
            ),
        }
    }
}

/// What a file says, or what is wrong with it.
pub open spec fn config(contents: Seq<char>) -> Result<ConfigModel, Seq<char>> {
    config_of_lines(lines(contents))
}

/// `first_wrong` is the one position that deserves the name.
proof fn lemma_first_wrong(lines: Seq<Seq<char>>, i: int)
    requires
        0 <= i <= lines.len(),
        forall|j: int| 0 <= j < i ==> !is_wrong(#[trigger] lines[j]),
        i < lines.len() ==> is_wrong(lines[i]),
    ensures
        first_wrong(lines) == i,
    decreases lines.len(),
{
    if i > 0 {
        assert(!is_wrong(lines[0]));
        let rest = lines.drop_first();
        assert forall|j: int| 0 <= j < i - 1 implies !is_wrong(#[trigger] rest[j]) by {
            assert(rest[j] == lines[j + 1]);
        }
        lemma_first_wrong(rest, i - 1);
    }
}

/// The keys are different texts.
proof fn lemma_keys_differ()
    ensures
        "log_path"@ != "listen_addr"@,
        "log_path"@ != "socks_addr"@,
        "listen_addr"@ != "socks_addr"@,
{
    reveal_strlit("log_path");
    reveal_strlit("listen_addr");
    reveal_strlit("socks_addr");
    assert("log_path"@.len() == 8 && "listen_addr"@.len() == 11 && "socks_addr"@.len() == 10);
}

/// Begins the text of a fault in a line.
fn fault_prefix(number: usize) -> (r: String)
    ensures
        r@ == "line "@ + decimal(number as nat),
{
    let mut r = "line ".to_owned();
    push_decimal(&mut r, number as u128);
    r
}

/// Reads a configuration file.
pub fn parse(contents: &str) -> (r: Result<Config, String>)
    ensures
        match (r, config(contents@)) {
            (Ok(c), Ok(model)) => c@ == model,
            (Err(text), Err(model)) => text@ == model,
            _ => false,
        },
{
    let chars = chars_of(contents);
    let all = split_lines(chars.as_slice());
    let ghost ls = lines(contents@);
    let mut log_path: Option<String> = None;
    let mut listen_addr: Option<String> = None;
    let mut socks_addr: Option<String> = None;
    let mut index: usize = 0;
    proof {
        lemma_keys_differ();
    }
    while index < all.len()
        invariant
            index <= all.len(),
            ls == lines(contents@),
            all@.len() == ls.len(),
            forall|i: int| 0 <= i < all@.len() ==> (#[trigger] all@[i])@ == ls[i],
            "log_path"@ != "listen_addr"@,
            "log_path"@ != "socks_addr"@,
            "listen_addr"@ != "socks_addr"@,
            forall|j: int| 0 <= j < index ==> !is_wrong(#[trigger] ls[j]),
            text_model(log_path) == last_setting(ls.take(index as int), "log_path"@),
            text_model(listen_addr) == last_setting(ls.take(index as int), "listen_addr"@),
            text_model(socks_addr) == last_setting(ls.take(index as int), "socks_addr"@),
        decreases all.len() - index,
    {
        let line = trimmed(all[index]);
        proof {
            assert(ls.take(index + 1).drop_last() == ls.take(index as int));
            assert(ls.take(index + 1).last() == ls[index as int]);
            if is_wrong(ls[index as int]) {
                lemma_first_wrong(ls, index as int);
            }
        }
        if line.len() > 0 && line[0] != '#' {
            match split_once(line, '=') {
                None => {
                    let mut text = fault_prefix(index + 1);
                    text.append(" is missing '='");
                    return Err(text);
                },
                Some((key, value)) => {
                    let key = trimmed(key);
                    let value = trimmed(value);
                    if value.len() == 0 {
                        let mut text = fault_prefix(index + 1);
                        text.append(" has an empty value for ");
                        text.append(text_of(key).as_str());
                        return Err(text);
                    }
                    if reads(key, "log_path") {
                        log_path = Some(text_of(value));
                    } else if reads(key, "listen_addr") {
                        listen_addr = Some(text_of(value));
                    } else if reads(key, "socks_addr") {
                        socks_addr = Some(text_of(value));
                    } else {
                        let mut text = fault_prefix(index + 1);
                        text.append(" has unknown key ");
                        text.append(text_of(key).as_str());
                        return Err(text);
                    }
                },
            }
        }
        index += 1;
    }
    proof {
        lemma_first_wrong(ls, ls.len() as int);
        assert(ls.take(index as int) == ls);
    }
    match (listen_addr, socks_addr) {
        (None, _) => Err("listen_addr is required".to_owned()),
        (_, None) => Err("socks_addr is required".to_owned()),
        (Some(listen_addr), Some(socks_addr)) => Ok(Config { log_path, listen_addr, socks_addr }),
    }
}

// ---------------------------------------------------------------------------
// Laws
// ---------------------------------------------------------------------------

/// The bounds of `first_wrong`, and what stands around it.
proof fn lemma_first_wrong_bounds(lines: Seq<Seq<char>>)
    ensures
        0 <= first_wrong(lines) <= lines.len(),
        forall|i: int| 0 <= i < first_wrong(lines) ==> !is_wrong(#[trigger] lines[i]),
        first_wrong(lines) < lines.len() ==> is_wrong(lines[first_wrong(lines)]),
    decreases lines.len(),
{
    if lines.len() > 0 && !is_wrong(lines[0]) {
        let rest = lines.drop_first();
        lemma_first_wrong_bounds(rest);
        assert forall|i: int| 0 <= i < first_wrong(lines) implies !is_wrong(
            #[trigger] lines[i],
        ) by {
            if i > 0 {
                assert(rest[i - 1] == lines[i]);
            }
        }
    }
}

/// A file makes sense if and only if none of its lines is wrong and it sets the
/// two addresses; the file to log to is optional.
pub proof fn law_log_path_is_optional(lines: Seq<Seq<char>>)
    ensures
        config_of_lines(lines) is Ok <==> {
            &&& forall|i: int| 0 <= i < lines.len() ==> !is_wrong(#[trigger] lines[i])
            &&& last_setting(lines, "listen_addr"@) is Some
            &&& last_setting(lines, "socks_addr"@) is Some
        },
{
    lemma_first_wrong_bounds(lines);
}

/// The lines that say something: those that are neither empty nor comments.
pub open spec fn telling(lines: Seq<Seq<char>>) -> Seq<Seq<char>> {
    lines.filter(|line: Seq<char>| !(line_model(line) is Nothing))
}

/// A line more at the end does not matter for the wrong lines in front of it.
proof fn lemma_first_wrong_of_push(lines: Seq<Seq<char>>, line: Seq<char>)
    ensures
        first_wrong(lines.push(line)) == if first_wrong(lines) < lines.len() || is_wrong(line) {
            first_wrong(lines)
        } else {
            lines.len() + 1int
        },
{
    let all = lines.push(line);
    lemma_first_wrong_bounds(lines);
    assert forall|i: int| 0 <= i < first_wrong(lines) implies !is_wrong(#[trigger] all[i]) by {
        assert(all[i] == lines[i]);
    }
    if first_wrong(lines) < lines.len() || is_wrong(line) {
        lemma_first_wrong(all, first_wrong(lines));
    } else {
        lemma_first_wrong(all, all.len() as int);
    }
}

/// The values and the first wrong line are found among the lines that say
/// something.
proof fn lemma_telling_lines_decide(lines: Seq<Seq<char>>)
    ensures
        forall|key: Seq<char>| #[trigger]
            last_setting(lines, key) == last_setting(telling(lines), key),
        first_wrong(lines) < lines.len() <==> first_wrong(telling(lines)) < telling(lines).len(),
        first_wrong(lines) < lines.len() ==> lines[first_wrong(lines)] == telling(
            lines,
        )[first_wrong(telling(lines))],
    decreases lines.len(),
{
    reveal(Seq::filter);
    lemma_first_wrong_bounds(lines);
    lemma_first_wrong_bounds(telling(lines));
    if lines.len() > 0 {
        let init = lines.drop_last();
        let line = lines.last();
        lemma_telling_lines_decide(init);
        lemma_first_wrong_bounds(init);
        lemma_first_wrong_bounds(telling(init));
        assert(lines =~= init.push(line));
        lemma_first_wrong_of_push(init, line);
        if !(line_model(line) is Nothing) {
            assert(telling(lines) == telling(init).push(line));
            assert(telling(lines).drop_last() =~= telling(init));
            lemma_first_wrong_of_push(telling(init), line);
        } else {
            assert(telling(lines) == telling(init));
        }
        assert forall|key: Seq<char>| #[trigger]
            last_setting(lines, key) == last_setting(telling(lines), key) by {
            assert(last_setting(init, key) == last_setting(telling(init), key));
        }
    }
}

/// Empty lines and comments say nothing, however many there are and wherever
/// they stand: of two files with the same other lines, one makes sense if and
/// only if the other does, and then both say the same. If one of the other lines
/// is wrong, both are refused for the same line, each under the number that the
/// line has in that file; if a setting is missing, both are refused for that.
pub proof fn law_comments_say_nothing(a: Seq<Seq<char>>, b: Seq<Seq<char>>)
    requires
        telling(a) == telling(b),
    ensures
        config_of_lines(a) is Ok <==> config_of_lines(b) is Ok,
        config_of_lines(a) is Ok ==> config_of_lines(a) == config_of_lines(b),
        first_wrong(a) < a.len() <==> first_wrong(b) < b.len(),
        first_wrong(a) < a.len() ==> {
            let line = a[first_wrong(a)];
            &&& b[first_wrong(b)] == line
            &&& config_of_lines(a) == Err::<ConfigModel, Seq<char>>(
                fault_text(line, (first_wrong(a) + 1) as nat),
            )
            &&& config_of_lines(b) == Err::<ConfigModel, Seq<char>>(
                fault_text(line, (first_wrong(b) + 1) as nat),
            )
        },
        first_wrong(a) == a.len() ==> config_of_lines(a) == config_of_lines(b),
{
    lemma_telling_lines_decide(a);
    lemma_telling_lines_decide(b);
    lemma_first_wrong_bounds(a);
    lemma_first_wrong_bounds(b);
    assert forall|key: Seq<char>| #[trigger] last_setting(a, key) == last_setting(b, key) by {
        assert(last_setting(a, key) == last_setting(telling(a), key));
        assert(last_setting(b, key) == last_setting(telling(b), key));
    }
}

/// So any number of lines that say nothing can be put anywhere into a file: it
/// makes sense if and only if it did before, and then says the same.
pub proof fn law_comments_can_be_added(
    a: Seq<Seq<char>>,
    comments: Seq<Seq<char>>,
    b: Seq<Seq<char>>,
)
    requires
        forall|i: int| 0 <= i < comments.len() ==> line_model(#[trigger] comments[i]) is Nothing,
    ensures
        telling(a + comments + b) == telling(a + b),
        config_of_lines(a + comments + b) is Ok <==> config_of_lines(a + b) is Ok,
        config_of_lines(a + b) is Ok ==> config_of_lines(a + comments + b) == config_of_lines(
            a + b,
        ),
    decreases comments.len(),
{
    if comments.len() == 0 {
        assert(a + comments + b =~= a + b);
    } else {
        let init = comments.drop_last();
        let line = comments.last();
        assert(line == comments[comments.len() - 1]);
        assert forall|i: int| 0 <= i < init.len() implies line_model(
            #[trigger] init[i],
        ) is Nothing by {
            assert(init[i] == comments[i]);
        }
        law_comments_can_be_added(a, init, b);
        let front = a + init;
        assert(a + comments + b =~= front.push(line) + b);
        lemma_telling_of_concat(front.push(line), b);
        lemma_telling_of_concat(front, b);
        reveal(Seq::filter);
        assert(front.push(line).drop_last() =~= front);
        assert(telling(front.push(line)) == telling(front));
    }
    law_comments_say_nothing(a + comments + b, a + b);
}

proof fn lemma_telling_of_concat(a: Seq<Seq<char>>, b: Seq<Seq<char>>)
    ensures
        telling(a + b) == telling(a) + telling(b),
    decreases b.len(),
{
    reveal(Seq::filter);
    if b.len() == 0 {
        assert(a + b =~= a);
        assert(telling(a) + telling(b) =~= telling(a));
    } else {
        lemma_telling_of_concat(a, b.drop_last());
        assert((a + b).drop_last() =~= a + b.drop_last());
        assert(telling(a + b) =~= telling(a) + telling(b));
    }
}

/// Of several values for a key the last one counts.
pub proof fn law_last_value_counts(
    a: Seq<Seq<char>>,
    line: Seq<char>,
    b: Seq<Seq<char>>,
    key: Seq<char>,
)
    requires
        sets(line, key),
        forall|i: int| 0 <= i < b.len() ==> !sets(#[trigger] b[i], key),
    ensures
        last_setting(a + seq![line] + b, key) == Some(set_value(line)),
    decreases b.len(),
{
    let all = a + seq![line] + b;
    if b.len() == 0 {
        assert(all.last() == line);
    } else {
        assert(all.last() == b[b.len() - 1]);
        assert(all.drop_last() =~= a + seq![line] + b.drop_last());
        assert forall|i: int| 0 <= i < b.drop_last().len() implies !sets(
            #[trigger] b.drop_last()[i],
            key,
        ) by {
            assert(b.drop_last()[i] == b[i]);
        }
        law_last_value_counts(a, line, b.drop_last(), key);
    }
}

/// A value that can be written behind an equals sign as it is.
pub open spec fn is_plain(value: Seq<char>) -> bool {
    value.len() > 0 && trim(value) == value && !value.contains('\n')
}

/// The line that sets a key, with its line end.
pub open spec fn setting_line(key: Seq<char>, value: Seq<char>) -> Seq<char> {
    key + seq!['='] + value + seq!['\n']
}

/// What is not trimmed begins and ends with something that is no white space.
proof fn lemma_trimmed_ends(s: Seq<char>)
    requires
        trim(s) == s,
        s.len() > 0,
    ensures
        !is_white_space(s[0]),
        !is_white_space(s.last()),
{
    lemma_trim_lengths(s);
    lemma_trim_lengths(s.drop_first());
    lemma_trim_lengths(s.drop_last());
    lemma_trim_end_length(trim_start(s));
    lemma_trim_end_length(s.drop_last());
}

proof fn lemma_trim_lengths(s: Seq<char>)
    ensures
        trim_start(s).len() <= s.len(),
    decreases s.len(),
{
    if s.len() > 0 {
        lemma_trim_lengths(s.drop_first());
    }
}

proof fn lemma_trim_end_length(s: Seq<char>)
    ensures
        trim_end(s).len() <= s.len(),
    decreases s.len(),
{
    if s.len() > 0 {
        lemma_trim_end_length(s.drop_last());
    }
}

/// The keys can stand in front of an equals sign as they are.
proof fn lemma_keys_are_plain(key: Seq<char>)
    requires
        is_key(key),
    ensures
        key.len() > 0,
        trim(key) == key,
        !key.contains('='),
        !key.contains('\n'),
        key[0] != '#',
        !is_white_space(key[0]),
{
    reveal_strlit("log_path");
    reveal_strlit("listen_addr");
    reveal_strlit("socks_addr");
    assert(key.len() == 8 || key.len() == 11 || key.len() == 10);
    assert(key[0] == 'l' || key[0] == 's');
    assert(key.last() == 'h' || key.last() == 'r');
    assert forall|i: int| 0 <= i < key.len() implies key[i] != '=' && key[i] != '\n' by {
        if key == "log_path"@ {
            assert("log_path"@[i] != '=' && "log_path"@[i] != '\n');
        } else if key == "listen_addr"@ {
            assert("listen_addr"@[i] != '=' && "listen_addr"@[i] != '\n');
        } else {
            assert("socks_addr"@[i] != '=' && "socks_addr"@[i] != '\n');
        }
    }
}

/// A line that sets a key is read as such.
proof fn lemma_setting_line(key: Seq<char>, value: Seq<char>, rest: Seq<char>)
    requires
        is_key(key),
        is_plain(value),
    ensures
        lines(setting_line(key, value) + rest) == seq![key + seq!['='] + value] + lines(rest),
        line_model(key + seq!['='] + value) == (LineModel::Setting { key, value }),
{
    let line = key + seq!['='] + value;
    lemma_keys_are_plain(key);
    lemma_trimmed_ends(value);
    lemma_split_back(key, '=', value);
    if line.contains('\n') {
        let i = choose|i: int| 0 <= i < line.len() && line[i] == '\n';
        if i < key.len() {
            assert(key.contains(key[i]));
        } else if i > key.len() {
            assert(value.contains(value[i - key.len() - 1]));
        }
    }
    lemma_split_back(line, '\n', rest);
    assert(setting_line(key, value) + rest =~= line + seq!['\n'] + rest);
    assert(line.last() == value.last());
    assert(line[0] == key[0]);
    assert(trim_start(line) == line);
    assert(trim(line) == line);
}

/// A file in its plainest form: a line for each of the settings.
pub open spec fn plain_file(c: ConfigModel) -> Seq<char> {
    setting_line("listen_addr"@, c.listen_addr) + setting_line("socks_addr"@, c.socks_addr)
        + match c.log_path {
        Some(path) => setting_line("log_path"@, path),
        None => Seq::empty(),
    }
}

/// What is written into a file in its plainest form is read back: the two
/// addresses and, if there is one, the file to log to.
pub proof fn law_settings_are_read_back(c: ConfigModel)
    requires
        is_plain(c.listen_addr),
        is_plain(c.socks_addr),
        c.log_path is Some ==> is_plain(c.log_path.unwrap()),
    ensures
        config(plain_file(c)) == Ok::<ConfigModel, Seq<char>>(c),
{
    let ConfigModel { log_path, listen_addr, socks_addr } = c;
    let tail = match log_path {
        Some(path) => setting_line("log_path"@, path),
        None => Seq::empty(),
    };
    let rest = setting_line("socks_addr"@, socks_addr) + tail;
    let contents = setting_line("listen_addr"@, listen_addr) + rest;
    assert(plain_file(c) =~= contents);
    let first = "listen_addr"@ + seq!['='] + listen_addr;
    let second = "socks_addr"@ + seq!['='] + socks_addr;
    lemma_keys_differ();
    lemma_setting_line("listen_addr"@, listen_addr, rest);
    lemma_setting_line("socks_addr"@, socks_addr, tail);
    let none = Seq::<Seq<char>>::empty();
    assert(lines(Seq::<char>::empty()) == none);
    let ls = lines(contents);
    match log_path {
        Some(path) => {
            let third = "log_path"@ + seq!['='] + path;
            lemma_setting_line("log_path"@, path, Seq::empty());
            assert(tail + Seq::empty() =~= tail);
            assert(ls =~= seq![first, second, third]);
            assert forall|i: int| 0 <= i < ls.len() implies !is_wrong(#[trigger] ls[i]) by {
                assert(ls[i] == first || ls[i] == second || ls[i] == third);
            }
            law_last_value_counts(none, first, seq![second, third], "listen_addr"@);
            assert(none + seq![first] + seq![second, third] =~= ls);
            law_last_value_counts(seq![first], second, seq![third], "socks_addr"@);
            assert(seq![first] + seq![second] + seq![third] =~= ls);
            law_last_value_counts(seq![first, second], third, none, "log_path"@);
            assert(seq![first, second] + seq![third] + none =~= ls);
        },
        None => {
            assert(ls =~= seq![first, second]);
            assert forall|i: int| 0 <= i < ls.len() implies !is_wrong(#[trigger] ls[i]) by {
                assert(ls[i] == first || ls[i] == second);
            }
            law_last_value_counts(none, first, seq![second], "listen_addr"@);
            assert(none + seq![first] + seq![second] =~= ls);
            law_last_value_counts(seq![first], second, none, "socks_addr"@);
            assert(seq![first] + seq![second] + none =~= ls);
            assert(ls.drop_last().drop_last().len() == 0);
            assert(ls.drop_last().last() == first && ls.last() == second);
            reveal_with_fuel(last_setting, 3);
        },
    }
    lemma_first_wrong(ls, ls.len() as int);
}

} // verus!
