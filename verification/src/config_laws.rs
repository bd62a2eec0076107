//! What holds of configuration files, in terms of the lines that they are put
//! together from.

use crate::config::{
    config, config_of_lines, fault_text, first_wrong, last_setting, line_model, set_value, sets,
    ConfigModel, LineModel,
};
use crate::number::decimal;
use crate::text::{is_white_space, lemma_split_back, lines};
use crate::text_laws::{all_white, is_bare, law_surrounding_white_space_is_dropped};
use vstd::prelude::*;

verus! {

/// White space around a line does not matter. Without anything else the line
/// says nothing, and so it does with a hash sign in front; any other line needs
/// an equals sign.
pub proof fn law_lines_without_settings(left: Seq<char>, text: Seq<char>, right: Seq<char>)
    requires
        all_white(left),
        all_white(right),
        is_bare(text),
    ensures
        text.len() == 0 || text[0] == '#' ==> line_model(left + text + right) is Nothing,
        text.len() > 0 && text[0] != '#' && !text.contains('=') ==> line_model(
            left + text + right,
        ) is NoEquals,
{
    law_surrounding_white_space_is_dropped(left, text, right);
}

/// A line sets a key to a value if the key stands in front of its first equals
/// sign and the value behind it, with any white space around both. There are
/// three keys, and a value there must be.
pub proof fn law_lines_with_settings(
    left: Seq<char>,
    key: Seq<char>,
    behind_key: Seq<char>,
    ahead_of_value: Seq<char>,
    value: Seq<char>,
    right: Seq<char>,
)
    requires
        all_white(left),
        all_white(behind_key),
        all_white(ahead_of_value),
        all_white(right),
        is_bare(key),
        is_bare(value),
        !key.contains('='),
        key.len() > 0 ==> key[0] != '#',
        key.len() == 0 ==> behind_key.len() == 0,
        value.len() == 0 ==> ahead_of_value.len() == 0,
    ensures
        line_model(
            left + (key + behind_key + seq!['='] + (ahead_of_value + value)) + right,
        ) == if value.len() == 0 {
            LineModel::NoValue { key }
        } else if key == "log_path"@ || key == "listen_addr"@ || key == "socks_addr"@ {
            LineModel::Setting { key, value }
        } else {
            LineModel::UnknownKey { key }
        },
{
    let none = Seq::<char>::empty();
    let front = key + behind_key;
    let back = ahead_of_value + value;
    let text = front + seq!['='] + back;
    if front.contains('=') {
        let i = choose|i: int| 0 <= i < front.len() && front[i] == '=';
        if i < key.len() {
            assert(key.contains(key[i]));
        } else {
            assert(is_white_space(behind_key[i - key.len()]));
        }
    }
    lemma_split_back(front, '=', back);
    assert(text[0] == if key.len() > 0 {
        key[0]
    } else {
        '='
    });
    assert(text.last() == if value.len() > 0 {
        value.last()
    } else {
        '='
    });
    law_surrounding_white_space_is_dropped(left, text, right);
    law_surrounding_white_space_is_dropped(none, key, behind_key);
    assert(none + key + behind_key =~= front);
    law_surrounding_white_space_is_dropped(ahead_of_value, value, none);
    assert(ahead_of_value + value + none =~= back);
}

/// The line says nothing, or sets a key.
pub open spec fn makes_sense(line: Seq<char>) -> bool {
    line_model(line) is Nothing || line_model(line) is Setting
}

proof fn lemma_first_wrong_line(good: Seq<Seq<char>>, bad: Seq<char>, rest: Seq<Seq<char>>)
    requires
        forall|i: int| 0 <= i < good.len() ==> makes_sense(#[trigger] good[i]),
        !makes_sense(bad),
    ensures
        first_wrong(good + seq![bad] + rest) == good.len(),
    decreases good.len(),
{
    let all = good + seq![bad] + rest;
    if good.len() == 0 {
        assert(all[0] == bad);
    } else {
        let later = good.drop_first();
        assert(makes_sense(good[0]));
        assert(all[0] == good[0]);
        assert(all.drop_first() =~= later + seq![bad] + rest);
        assert forall|i: int| 0 <= i < later.len() implies makes_sense(#[trigger] later[i]) by {
            assert(later[i] == good[i + 1]);
        }
        lemma_first_wrong_line(later, bad, rest);
    }
}

/// The first line that makes no sense decides, whatever follows it: the fault is
/// reported with the number of the line, counted from one, and with its key.
pub proof fn law_first_fault_is_reported(
    good: Seq<Seq<char>>,
    bad: Seq<char>,
    rest: Seq<Seq<char>>,
)
    requires
        forall|i: int| 0 <= i < good.len() ==> makes_sense(#[trigger] good[i]),
        !makes_sense(bad),
    ensures
        ({
            let number = decimal(good.len() + 1);
            let reported = config_of_lines(good + seq![bad] + rest);
            match line_model(bad) {
                LineModel::NoEquals => reported == Err::<ConfigModel, Seq<char>>(
                    "line "@ + (number + " is missing '='"@),
                ),
                LineModel::NoValue { key } => reported == Err::<ConfigModel, Seq<char>>(
                    "line "@ + (number + (" has an empty value for "@ + key)),
                ),
                LineModel::UnknownKey { key } => reported == Err::<ConfigModel, Seq<char>>(
                    "line "@ + (number + (" has unknown key "@ + key)),
                ),
                _ => false,
            }
        }),
{
    let all = good + seq![bad] + rest;
    let number = decimal(good.len() + 1);
    lemma_first_wrong_line(good, bad, rest);
    assert(all[good.len() as int] == bad);
    match line_model(bad) {
        LineModel::NoEquals => {
            assert(fault_text(bad, good.len() + 1) =~= "line "@ + (number + " is missing '='"@));
        },
        LineModel::NoValue { key } => {
            assert(fault_text(bad, good.len() + 1) =~= "line "@ + (number + (
            " has an empty value for "@ + key)));
        },
        LineModel::UnknownKey { key } => {
            assert(fault_text(bad, good.len() + 1) =~= "line "@ + (number + (" has unknown key "@
                + key)));
        },
        _ => {},
    }
}

proof fn lemma_no_wrong_line(lines: Seq<Seq<char>>)
    requires
        forall|i: int| 0 <= i < lines.len() ==> makes_sense(#[trigger] lines[i]),
    ensures
        first_wrong(lines) == lines.len(),
    decreases lines.len(),
{
    if lines.len() > 0 {
        let rest = lines.drop_first();
        assert(makes_sense(lines[0]));
        assert forall|i: int| 0 <= i < rest.len() implies makes_sense(#[trigger] rest[i]) by {
            assert(rest[i] == lines[i + 1]);
        }
        lemma_no_wrong_line(rest);
    }
}

/// Of a file whose lines all make sense, both addresses are required, the one to
/// listen on first; its settings are what the lines say last.
pub proof fn law_settings_are_taken_from_the_lines(contents: Seq<char>)
    requires
        forall|i: int|
            0 <= i < lines(contents).len() ==> makes_sense(#[trigger] lines(contents)[i]),
    ensures
        ({
            let said = lines(contents);
            let listen = last_setting(said, "listen_addr"@);
            let socks = last_setting(said, "socks_addr"@);
            &&& listen is None ==> config(contents) == Err::<ConfigModel, Seq<char>>(
                "listen_addr is required"@,
            )
            &&& listen is Some && socks is None ==> config(contents) == Err::<
                ConfigModel,
                Seq<char>,
            >("socks_addr is required"@)
            &&& listen is Some && socks is Some ==> {
                &&& config(contents) is Ok
                &&& config(contents)->Ok_0.listen_addr == listen.unwrap()
                &&& config(contents)->Ok_0.socks_addr == socks.unwrap()
                &&& config(contents)->Ok_0.log_path == last_setting(said, "log_path"@)
            }
        }),
{
    lemma_no_wrong_line(lines(contents));
}

/// A file is judged by its lines, and a key has the value that the last line to
/// set it gives it; lines that set other keys or none do not matter, and a key
/// that no line sets has no value.
pub proof fn law_a_key_has_its_last_value(
    contents: Seq<char>,
    a: Seq<Seq<char>>,
    line: Seq<char>,
    value: Seq<char>,
    b: Seq<Seq<char>>,
    key: Seq<char>,
)
    requires
        line_model(line) == (LineModel::Setting { key, value }),
        forall|i: int|
            0 <= i < b.len() ==> (line_model(#[trigger] b[i]) matches LineModel::Setting {
                key: k,
                ..
            } ==> k != key),
    ensures
        config(contents) == config_of_lines(lines(contents)),
        last_setting(a + seq![line] + b, key) == Some(value),
        last_setting(b, key) is None,
    decreases b.len(),
{
    let all = a + seq![line] + b;
    assert(sets(line, key) && set_value(line) == value);
    if b.len() == 0 {
        assert(all.last() == line);
    } else {
        let init = b.drop_last();
        assert(all.last() == b[b.len() - 1]);
        assert(all.drop_last() =~= a + seq![line] + init);
        assert(!sets(b[b.len() - 1], key));
        assert forall|i: int| 0 <= i < init.len() implies (line_model(
            #[trigger] init[i],
        ) matches LineModel::Setting { key: k, .. } ==> k != key) by {
            assert(init[i] == b[i]);
        }
        law_a_key_has_its_last_value(contents, a, line, value, init, key);
    }
}

} // verus!
