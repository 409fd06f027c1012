//! Colors for the selected row.
use crate::text;
use crate::text::{chars_of, same_text, trim};
use vstd::prelude::*;

verus! {

/// A terminal color.
#[derive(Debug, Clone, Copy, PartialEq, Eq, Structural)]
pub enum Color {
    Reset,
    Black,
    DarkGrey,
    Grey,
    White,
    DarkRed,
    Red,
    DarkGreen,
    Green,
    DarkYellow,
    Yellow,
    DarkBlue,
    Blue,
    DarkMagenta,
    Magenta,
    DarkCyan,
    Cyan,
    Rgb { r: u8, g: u8, b: u8 },
}

/// The form in which color names are compared: no white space at the ends, ASCII
/// letters in lowercase, `_` for `-`.
pub open spec fn normalized_color(value: Seq<char>) -> Seq<char> {
    text::trimmed(value).map_values(|character: char| normalized_color_character(character))
}

/// `normalized_color` on one character.
pub open spec fn normalized_color_character(character: char) -> char {
    if character == '-' {
        '_'
    } else {
        text::ascii_lower(character)
    }
}

/// The color that a normalized name stands for.
pub open spec fn named_color(name: Seq<char>) -> Option<Color> {
    if name == "default"@ || name == "reset"@ {
        Some(Color::Reset)
    } else if name == "black"@ {
        Some(Color::Black)
    } else if name == "dark_grey"@ || name == "dark_gray"@ {
        Some(Color::DarkGrey)
    } else if name == "grey"@ || name == "gray"@ {
        Some(Color::Grey)
    } else if name == "white"@ {
        Some(Color::White)
    } else if name == "dark_red"@ {
        Some(Color::DarkRed)
    } else if name == "red"@ {
        Some(Color::Red)
    } else if name == "dark_green"@ {
        Some(Color::DarkGreen)
    } else if name == "green"@ {
        Some(Color::Green)
    } else if name == "dark_yellow"@ {
        Some(Color::DarkYellow)
    } else if name == "yellow"@ {
        Some(Color::Yellow)
    } else if name == "dark_blue"@ {
        Some(Color::DarkBlue)
    } else if name == "blue"@ {
        Some(Color::Blue)
    } else if name == "dark_magenta"@ {
        Some(Color::DarkMagenta)
    } else if name == "magenta"@ {
        Some(Color::Magenta)
    } else if name == "dark_cyan"@ {
        Some(Color::DarkCyan)
    } else if name == "cyan"@ {
        Some(Color::Cyan)
    } else {
        None
    }
}

/// The value of a lowercase hexadecimal digit.
pub open spec fn hex_value(character: char) -> Option<u8> {
    if '0' <= character <= '9' {
        Some((character as u32 - 48) as u8)
    } else if 'a' <= character <= 'f' {
        Some((character as u32 - 87) as u8)
    } else {
        None
    }
}

/// The byte that two hexadecimal digits stand for.
pub open spec fn hex_byte(high: char, low: char) -> Option<u8> {
    match (hex_value(high), hex_value(low)) {
        (Some(sixteens), Some(ones)) => Some((sixteens * 16 + ones) as u8),
        _ => None,
    }
}

/// The color that a normalized `#rrggbb` stands for.
pub open spec fn rgb_color(value: Seq<char>) -> Option<Color> {
    if value.len() == 7 && value[0] == '#' {
        match (
            hex_byte(value[1], value[2]),
            hex_byte(value[3], value[4]),
            hex_byte(value[5], value[6]),
        ) {
            (Some(r), Some(g), Some(b)) => Some(Color::Rgb { r, g, b }),
            _ => None,
        }
    } else {
        None
    }
}

/// The color that a text stands for, if any.
pub open spec fn color_of(value: Seq<char>) -> Option<Color> {
    let normalized = normalized_color(value);
    match named_color(normalized) {
        Some(color) => Some(color),
        None => rgb_color(normalized),
    }
}

fn normalize_color(value: &str) -> (normalized: String)
    ensures
        normalized@ == normalized_color(value@),
{
    let chars = chars_of(trim(value).as_str());
    let mut normalized = String::new();
    let mut next: usize = 0;
    while next < chars.len()
        invariant
            next <= chars@.len(),
            chars@ == text::trimmed(value@),
            normalized@ == normalized_color(value@).take(next as int),
        decreases chars@.len() - next,
    {
        let character = chars[next];
        if character == '-' {
            normalized.push('_');
        } else if 'A' <= character && character <= 'Z' {
            let code: u8 = (character as u32 + 32) as u8;
            normalized.push(code as char);
        } else {
            normalized.push(character);
        }
        next = next + 1;
    }
    assert(normalized_color(value@).take(next as int) == normalized_color(value@));
    normalized
}

fn find_named_color(name: &str) -> (color: Option<Color>)
    ensures
        color == named_color(name@),
{
    if same_text(name, "default") || same_text(name, "reset") {
        Some(Color::Reset)
    } else if same_text(name, "black") {
        Some(Color::Black)
    } else if same_text(name, "dark_grey") || same_text(name, "dark_gray") {
        Some(Color::DarkGrey)
    } else if same_text(name, "grey") || same_text(name, "gray") {
        Some(Color::Grey)
    } else if same_text(name, "white") {
        Some(Color::White)
    } else if same_text(name, "dark_red") {
        Some(Color::DarkRed)
    } else if same_text(name, "red") {
        Some(Color::Red)
    } else if same_text(name, "dark_green") {
        Some(Color::DarkGreen)
    } else if same_text(name, "green") {
        Some(Color::Green)
    } else if same_text(name, "dark_yellow") {
        Some(Color::DarkYellow)
    } else if same_text(name, "yellow") {
        Some(Color::Yellow)
    } else if same_text(name, "dark_blue") {
        Some(Color::DarkBlue)
    } else if same_text(name, "blue") {
        Some(Color::Blue)
    } else if same_text(name, "dark_magenta") {
        Some(Color::DarkMagenta)
    } else if same_text(name, "magenta") {
        Some(Color::Magenta)
    } else if same_text(name, "dark_cyan") {
        Some(Color::DarkCyan)
    } else if same_text(name, "cyan") {
        Some(Color::Cyan)
    } else {
        None
    }
}

fn parse_hex_digit(character: char) -> (value: Option<u8>)
    ensures
        value == hex_value(character),
        value matches Some(found) ==> found < 16,
{
    if '0' <= character && character <= '9' {
        Some((character as u32 - 48) as u8)
    } else if 'a' <= character && character <= 'f' {
        Some((character as u32 - 87) as u8)
    } else {
        None
    }
}

fn parse_hex_byte(high: char, low: char) -> (value: Option<u8>)
    ensures
        value == hex_byte(high, low),
{
    match (parse_hex_digit(high), parse_hex_digit(low)) {
        (Some(sixteens), Some(ones)) => Some(sixteens * 16 + ones),
        _ => None,
    }
}

fn find_rgb_color(value: &str) -> (color: Option<Color>)
    ensures
        color == rgb_color(value@),
{
    let chars = chars_of(value);
    if chars.len() != 7 || chars[0] != '#' {
        return None;
    }
    let red = parse_hex_byte(chars[1], chars[2]);
    let green = parse_hex_byte(chars[3], chars[4]);
    let blue = parse_hex_byte(chars[5], chars[6]);
    match (red, green, blue) {
        (Some(r), Some(g), Some(b)) => Some(Color::Rgb { r, g, b }),
        _ => None,
    }
}

/// What is said of a `menu` field whose value is no color.
pub open spec fn color_message(field: Seq<char>) -> Seq<char> {
    "menu."@ + field + " must be a named color or #RRGGBB"@
}

/// The color that `value` stands for: a name or `#RRGGBB`, in upper or lower
/// case. `field` is the `menu` field that an error names.
pub fn parse_color(value: &str, field: &str) -> (parsed: Result<Color, String>)
    ensures
        match parsed {
            Ok(color) => color_of(value@) == Some(color),
            Err(message) => color_of(value@) is None && message@ == crate::error::reported(
                color_message(field@),
            ),
        },
{
    let normalized = normalize_color(value);
    if let Some(color) = find_named_color(normalized.as_str()) {
        return Ok(color);
    }
    if let Some(color) = find_rgb_color(normalized.as_str()) {
        return Ok(color);
    }
    let mut message = "menu.".to_owned();
    message.append(field);
    message.append(" must be a named color or #RRGGBB");
    Err(crate::error::config_error(message.as_str()))
}

/// The text with `_` for every `-`.
pub open spec fn with_underscores(value: Seq<char>) -> Seq<char> {
    value.map_values(
        |character: char|
            if character == '-' {
                '_'
            } else {
                character
            },
    )
}

proof fn lemma_normalized_alike(left: Seq<char>, right: Seq<char>)
    requires
        left.len() == right.len(),
        forall|i: int|
            0 <= i < left.len() ==> text::white_space(#[trigger] left[i]) == text::white_space(
                right[i],
            ),
        forall|i: int|
            0 <= i < left.len() ==> normalized_color_character(#[trigger] left[i])
                == normalized_color_character(right[i]),
    ensures
        normalized_color(left) == normalized_color(right),
{
    text::lemma_trimmed_alike(left, right);
    let start = text::leading_space(left) as int;
    let tight = text::trimmed(left);
    let other = text::trimmed(right);
    assert forall|i: int| 0 <= i < tight.len() implies normalized_color(left)[i]
        == normalized_color(right)[i] by {
        assert(tight[i] == left[start + i]);
        assert(other[i] == right[start + i]);
    }
}

/// Letter case, white space at the ends and the choice between `-` and `_` do not
/// change which color a text stands for.
pub proof fn color_spelling_does_not_matter(value: Seq<char>)
    ensures
        color_of(text::ascii_lowercase(value)) == color_of(value),
        color_of(with_underscores(value)) == color_of(value),
        color_of(text::trimmed(value)) == color_of(value),
{
    lemma_normalized_alike(text::ascii_lowercase(value), value);
    lemma_normalized_alike(with_underscores(value), value);
    text::trimming_twice_is_trimming_once(value);
}

/// The value of a hexadecimal digit in upper or lower case.
pub open spec fn digit_value(character: char) -> Option<u8> {
    hex_value(text::ascii_lower(character))
}

proof fn lemma_no_name_starts_with_a_hash(name: Seq<char>)
    requires
        name.len() > 0,
        name[0] == '#',
    ensures
        named_color(name) is None,
{
    reveal_strlit("default");
    reveal_strlit("reset");
    reveal_strlit("black");
    reveal_strlit("dark_grey");
    reveal_strlit("dark_gray");
    reveal_strlit("grey");
    reveal_strlit("gray");
    reveal_strlit("white");
    reveal_strlit("dark_red");
    reveal_strlit("red");
    reveal_strlit("dark_green");
    reveal_strlit("green");
    reveal_strlit("dark_yellow");
    reveal_strlit("yellow");
    reveal_strlit("dark_blue");
    reveal_strlit("blue");
    reveal_strlit("dark_magenta");
    reveal_strlit("magenta");
    reveal_strlit("dark_cyan");
    reveal_strlit("cyan");
}

/// The text is `#` and six hexadecimal digits, in upper or lower case.
pub open spec fn hash_and_six_digits(value: Seq<char>) -> bool {
    &&& value.len() == 7
    &&& value[0] == '#'
    &&& forall|i: int| 1 <= i < 7 ==> digit_value(#[trigger] value[i]) is Some
}

/// A text that starts with `#`, white space aside, is a color exactly when it is `#`
/// and six hexadecimal digits, and it is the color with these three parts then.
pub proof fn six_digits_are_a_color(value: Seq<char>)
    requires
        text::trimmed(value).len() > 0,
        text::trimmed(value)[0] == '#',
    ensures
        color_of(value) is Some <==> hash_and_six_digits(text::trimmed(value)),
        color_of(value) matches Some(color) ==> ({
            let digits = text::trimmed(value);
            &&& color is Rgb
            &&& color->r == digit_value(digits[1])->0 * 16 + digit_value(digits[2])->0
            &&& color->g == digit_value(digits[3])->0 * 16 + digit_value(digits[4])->0
            &&& color->b == digit_value(digits[5])->0 * 16 + digit_value(digits[6])->0
        }),
{
    let digits = text::trimmed(value);
    let normalized = normalized_color(value);
    lemma_no_name_starts_with_a_hash(normalized);
    assert forall|i: int| 1 <= i < digits.len() implies hex_value(#[trigger] normalized[i])
        == digit_value(digits[i]) && (digit_value(digits[i]) matches Some(found) ==> found
        < 16) by {
        assert(normalized[i] == normalized_color_character(digits[i]));
    }
    if digits.len() == 7 {
        assert(hex_value(normalized[1]) == digit_value(digits[1]));
        assert(hex_value(normalized[2]) == digit_value(digits[2]));
        assert(hex_value(normalized[3]) == digit_value(digits[3]));
        assert(hex_value(normalized[4]) == digit_value(digits[4]));
        assert(hex_value(normalized[5]) == digit_value(digits[5]));
        assert(hex_value(normalized[6]) == digit_value(digits[6]));
    }
}

/// A small letter may stand for its capital letter, and `_` for `-`: the text stands
/// for the same color, or for none as before.
pub proof fn either_form_of_a_character_will_do(value: Seq<char>, other: Seq<char>)
    requires
        other.len() == value.len(),
        forall|i: int|
            0 <= i < value.len() ==> {
                ||| #[trigger] other[i] == value[i]
                ||| 'A' <= value[i] <= 'Z' && other[i] == (value[i] as u32 + 32) as char
                ||| value[i] == '-' && other[i] == '_'
            },
    ensures
        color_of(other) == color_of(value),
{
    assert forall|i: int| 0 <= i < other.len() implies text::white_space(#[trigger] other[i])
        == text::white_space(value[i]) && normalized_color_character(other[i])
        == normalized_color_character(value[i]) by {}
    lemma_normalized_alike(other, value);
}

/// A text that starts with `#`, white space aside, is a color exactly when six digits
/// of base sixteen follow and nothing else. Two digits each say how much red, green
/// and blue there is.
pub proof fn two_digits_each_for_red_green_and_blue(value: Seq<char>)
    requires
        text::trimmed(value).len() > 0,
        text::trimmed(value)[0] == '#',
    ensures
        color_of(value) is Some <==> text::trimmed(value).len() == 7 && forall|i: int|
            1 <= i < 7 ==> {
                let shown = #[trigger] text::trimmed(value)[i];
                '0' <= shown <= '9' || 'a' <= shown <= 'f' || 'A' <= shown <= 'F'
            },
        color_of(value) is Some ==> color_of(value)->0 is Rgb,
        color_of(value) matches Some(Color::Rgb { r, g, b }) ==> ({
            let shown = text::trimmed(value);
            let amount = |character: char|
                if character <= '9' {
                    character as u32 - 48
                } else if character <= 'F' {
                    character as u32 - 55
                } else {
                    character as u32 - 87
                };
            &&& r == amount(shown[1]) * 16 + amount(shown[2])
            &&& g == amount(shown[3]) * 16 + amount(shown[4])
            &&& b == amount(shown[5]) * 16 + amount(shown[6])
        }),
{
    six_digits_are_a_color(value);
    let shown = text::trimmed(value);
    assert forall|i: int| 1 <= i < shown.len() implies (digit_value(#[trigger] shown[i]) is Some
        <==> ('0' <= shown[i] <= '9' || 'a' <= shown[i] <= 'f' || 'A' <= shown[i] <= 'F')) by {}
    if hash_and_six_digits(shown) {
        assert(digit_value(shown[1]) is Some && digit_value(shown[2]) is Some);
        assert(digit_value(shown[3]) is Some && digit_value(shown[4]) is Some);
        assert(digit_value(shown[5]) is Some && digit_value(shown[6]) is Some);
    }
}

/// The text spells the name: the same characters, white space at the ends aside,
/// capital letters for small ones and `-` for `_` where one likes.
pub open spec fn spells(value: Seq<char>, name: Seq<char>) -> bool {
    let tight = text::trimmed(value);
    &&& tight.len() == name.len()
    &&& forall|i: int|
        0 <= i < name.len() ==> {
            ||| #[trigger] tight[i] == name[i] && !('A' <= tight[i] <= 'Z') && tight[i] != '-'
            ||| 'A' <= tight[i] <= 'Z' && name[i] == (tight[i] as u32 + 32) as char
            ||| tight[i] == '-' && name[i] == '_'
        }
}

proof fn lemma_spelled(value: Seq<char>, name: Seq<char>)
    ensures
        spells(value, name) <==> normalized_color(value) == name,
{
    let tight = text::trimmed(value);
    let normalized = normalized_color(value);
    if spells(value, name) {
        assert forall|i: int| 0 <= i < name.len() implies normalized[i] == name[i] by {
            assert(normalized[i] == normalized_color_character(tight[i]));
        }
        assert(normalized == name);
    }
    if normalized == name {
        assert forall|i: int| 0 <= i < name.len() implies {
            ||| #[trigger] tight[i] == name[i] && !('A' <= tight[i] <= 'Z') && tight[i] != '-'
            ||| 'A' <= tight[i] <= 'Z' && name[i] == (tight[i] as u32 + 32) as char
            ||| tight[i] == '-' && name[i] == '_'
        } by {
            assert(normalized[i] == normalized_color_character(tight[i]));
        }
    }
}

/// A text that spells the name of a color stands for this color, and other texts that
/// do not start with `#` stand for none.
pub proof fn colors_go_by_their_names(value: Seq<char>)
    ensures
        spells(value, "default"@) ==> color_of(value) == Some(Color::Reset),
        spells(value, "reset"@) ==> color_of(value) == Some(Color::Reset),
        spells(value, "black"@) ==> color_of(value) == Some(Color::Black),
        spells(value, "dark_grey"@) ==> color_of(value) == Some(Color::DarkGrey),
        spells(value, "dark_gray"@) ==> color_of(value) == Some(Color::DarkGrey),
        spells(value, "grey"@) ==> color_of(value) == Some(Color::Grey),
        spells(value, "gray"@) ==> color_of(value) == Some(Color::Grey),
        spells(value, "white"@) ==> color_of(value) == Some(Color::White),
        spells(value, "dark_red"@) ==> color_of(value) == Some(Color::DarkRed),
        spells(value, "red"@) ==> color_of(value) == Some(Color::Red),
        spells(value, "dark_green"@) ==> color_of(value) == Some(Color::DarkGreen),
        spells(value, "green"@) ==> color_of(value) == Some(Color::Green),
        spells(value, "dark_yellow"@) ==> color_of(value) == Some(Color::DarkYellow),
        spells(value, "yellow"@) ==> color_of(value) == Some(Color::Yellow),
        spells(value, "dark_blue"@) ==> color_of(value) == Some(Color::DarkBlue),
        spells(value, "blue"@) ==> color_of(value) == Some(Color::Blue),
        spells(value, "dark_magenta"@) ==> color_of(value) == Some(Color::DarkMagenta),
        spells(value, "magenta"@) ==> color_of(value) == Some(Color::Magenta),
        spells(value, "dark_cyan"@) ==> color_of(value) == Some(Color::DarkCyan),
        spells(value, "cyan"@) ==> color_of(value) == Some(Color::Cyan),
        color_of(value) is Some ==> {
            ||| text::trimmed(value).len() > 0 && text::trimmed(value)[0] == '#'
            ||| spells(value, "default"@)
            ||| spells(value, "reset"@)
            ||| spells(value, "black"@)
            ||| spells(value, "dark_grey"@)
            ||| spells(value, "dark_gray"@)
            ||| spells(value, "grey"@)
            ||| spells(value, "gray"@)
            ||| spells(value, "white"@)
            ||| spells(value, "dark_red"@)
            ||| spells(value, "red"@)
            ||| spells(value, "dark_green"@)
            ||| spells(value, "green"@)
            ||| spells(value, "dark_yellow"@)
            ||| spells(value, "yellow"@)
            ||| spells(value, "dark_blue"@)
            ||| spells(value, "blue"@)
            ||| spells(value, "dark_magenta"@)
            ||| spells(value, "magenta"@)
            ||| spells(value, "dark_cyan"@)
            ||| spells(value, "cyan"@)
        },
{
    reveal_strlit("default");
    reveal_strlit("reset");
    reveal_strlit("black");
    reveal_strlit("dark_grey");
    reveal_strlit("dark_gray");
    reveal_strlit("grey");
    reveal_strlit("gray");
    reveal_strlit("white");
    reveal_strlit("dark_red");
    reveal_strlit("red");
    reveal_strlit("dark_green");
    reveal_strlit("green");
    reveal_strlit("dark_yellow");
    reveal_strlit("yellow");
    reveal_strlit("dark_blue");
    reveal_strlit("blue");
    reveal_strlit("dark_magenta");
    reveal_strlit("magenta");
    reveal_strlit("dark_cyan");
    reveal_strlit("cyan");
    lemma_spelled(value, "default"@);
    lemma_spelled(value, "reset"@);
    lemma_spelled(value, "black"@);
    lemma_spelled(value, "dark_grey"@);
    lemma_spelled(value, "dark_gray"@);
    lemma_spelled(value, "grey"@);
    lemma_spelled(value, "gray"@);
    lemma_spelled(value, "white"@);
    lemma_spelled(value, "dark_red"@);
    lemma_spelled(value, "red"@);
    lemma_spelled(value, "dark_green"@);
    lemma_spelled(value, "green"@);
    lemma_spelled(value, "dark_yellow"@);
    lemma_spelled(value, "yellow"@);
    lemma_spelled(value, "dark_blue"@);
    lemma_spelled(value, "blue"@);
    lemma_spelled(value, "dark_magenta"@);
    lemma_spelled(value, "magenta"@);
    lemma_spelled(value, "dark_cyan"@);
    lemma_spelled(value, "cyan"@);
    lemma_names_differ();
    let normalized = normalized_color(value);
    if rgb_color(normalized) is Some {
        let first = text::trimmed(value)[0];
        assert(normalized[0] == normalized_color_character(first));
    }
}

/// No two of the names are the same.
proof fn lemma_names_differ()
    ensures
        named_color("reset"@) == Some(Color::Reset),
        named_color("black"@) == Some(Color::Black),
        named_color("dark_grey"@) == Some(Color::DarkGrey),
        named_color("dark_gray"@) == Some(Color::DarkGrey),
        named_color("grey"@) == Some(Color::Grey),
        named_color("gray"@) == Some(Color::Grey),
        named_color("white"@) == Some(Color::White),
        named_color("dark_red"@) == Some(Color::DarkRed),
        named_color("red"@) == Some(Color::Red),
        named_color("dark_green"@) == Some(Color::DarkGreen),
        named_color("green"@) == Some(Color::Green),
        named_color("dark_yellow"@) == Some(Color::DarkYellow),
        named_color("yellow"@) == Some(Color::Yellow),
        named_color("dark_blue"@) == Some(Color::DarkBlue),
        named_color("blue"@) == Some(Color::Blue),
        named_color("dark_magenta"@) == Some(Color::DarkMagenta),
        named_color("magenta"@) == Some(Color::Magenta),
        named_color("dark_cyan"@) == Some(Color::DarkCyan),
        named_color("cyan"@) == Some(Color::Cyan),
{
    reveal_strlit("default");
    reveal_strlit("reset");
    reveal_strlit("black");
    reveal_strlit("dark_grey");
    reveal_strlit("dark_gray");
    reveal_strlit("grey");
    reveal_strlit("gray");
    reveal_strlit("white");
    reveal_strlit("dark_red");
    reveal_strlit("red");
    reveal_strlit("dark_green");
    reveal_strlit("green");
    reveal_strlit("dark_yellow");
    reveal_strlit("yellow");
    reveal_strlit("dark_blue");
    reveal_strlit("blue");
    reveal_strlit("dark_magenta");
    reveal_strlit("magenta");
    reveal_strlit("dark_cyan");
    reveal_strlit("cyan");
    assert("default"@.len() == 7);
    assert("reset"@.len() == 5);
    assert("black"@.len() == 5);
    assert("dark_grey"@.len() == 9);
    assert("dark_gray"@.len() == 9);
    assert("grey"@.len() == 4);
    assert("gray"@.len() == 4);
    assert("white"@.len() == 5);
    assert("dark_red"@.len() == 8);
    assert("red"@.len() == 3);
    assert("dark_green"@.len() == 10);
    assert("green"@.len() == 5);
    assert("dark_yellow"@.len() == 11);
    assert("yellow"@.len() == 6);
    assert("dark_blue"@.len() == 9);
    assert("blue"@.len() == 4);
    assert("dark_magenta"@.len() == 12);
    assert("magenta"@.len() == 7);
    assert("dark_cyan"@.len() == 9);
    assert("cyan"@.len() == 4);
    assert("default"@[0] == 'd' && "magenta"@[0] == 'm');
    assert("reset"@[0] == 'r' && "black"@[0] == 'b');
    assert("reset"@[0] == 'r' && "white"@[0] == 'w');
    assert("reset"@[0] == 'r' && "green"@[0] == 'g');
    assert("black"@[0] == 'b' && "white"@[0] == 'w');
    assert("black"@[0] == 'b' && "green"@[0] == 'g');
    assert("dark_grey"@[7] == 'e' && "dark_gray"@[7] == 'a');
    assert("dark_grey"@[5] == 'g' && "dark_blue"@[5] == 'b');
    assert("dark_grey"@[5] == 'g' && "dark_cyan"@[5] == 'c');
    assert("dark_gray"@[5] == 'g' && "dark_blue"@[5] == 'b');
    assert("dark_gray"@[5] == 'g' && "dark_cyan"@[5] == 'c');
    assert("grey"@[2] == 'e' && "gray"@[2] == 'a');
    assert("grey"@[0] == 'g' && "blue"@[0] == 'b');
    assert("grey"@[0] == 'g' && "cyan"@[0] == 'c');
    assert("gray"@[0] == 'g' && "blue"@[0] == 'b');
    assert("gray"@[0] == 'g' && "cyan"@[0] == 'c');
    assert("white"@[0] == 'w' && "green"@[0] == 'g');
    assert("dark_blue"@[5] == 'b' && "dark_cyan"@[5] == 'c');
    assert("blue"@[0] == 'b' && "cyan"@[0] == 'c');
}

} // verus!
