//! Template filters that colour and style text with ANSI escape sequences.

use vstd::prelude::*;
use crate::text::{ascii_lower, chars_of, decimal, parse_decimal, parse_unsigned, push_decimal,
    push_text, same_chars, string_of, to_ascii_lower, trim, trim_chars};

verus! {

/// `text` wrapped in the escape sequence with parameters `code` and a reset.
pub open spec fn sgr(code: Seq<char>, text: Seq<char>) -> Seq<char> {
    seq!['\u{1b}', '['] + code + seq!['m'] + text + seq!['\u{1b}', '[', '0', 'm']
}

fn push_sgr(out: &mut Vec<char>, code: &Vec<char>, text: &str)
    ensures
        final(out)@ == old(out)@ + sgr(code@, text@),
{
    let ghost start = out@;
    out.push('\u{1b}');
    out.push('[');
    crate::text::push_chars(out, code);
    out.push('m');
    push_text(out, text);
    out.push('\u{1b}');
    out.push('[');
    out.push('0');
    out.push('m');
    assert(out@ =~= start + sgr(code@, text@));
}

/// Styles text with the select-graphic-rendition attribute `code`.
pub fn style(value: &str, code: u8) -> (r: String)
    ensures
        r@ == sgr(decimal(code as nat), value@),
{
    let mut c: Vec<char> = Vec::new();
    push_decimal(&mut c, code as u128);
    let mut out: Vec<char> = Vec::new();
    push_sgr(&mut out, &c, value);
    assert(out@ =~= sgr(decimal(code as nat), value@));
    string_of(&out)
}

/// Dims text.
pub fn dim(value: &str) -> (r: String)
    ensures
        r@ == sgr(decimal(2), value@),
{
    style(value, 2)
}

/// Makes text bold.
pub fn bold(value: &str) -> (r: String)
    ensures
        r@ == sgr(decimal(1), value@),
{
    style(value, 1)
}

/// Makes text italic.
pub fn italic(value: &str) -> (r: String)
    ensures
        r@ == sgr(decimal(3), value@),
{
    style(value, 3)
}

/// A named colour: whether it is of the bright set, and its offset from the set's base.
pub open spec fn named_color(c: Seq<char>) -> Option<(bool, int)> {
    if c == "black"@ {
        Some((false, 0))
    } else if c == "red"@ {
        Some((false, 1))
    } else if c == "green"@ {
        Some((false, 2))
    } else if c == "yellow"@ {
        Some((false, 3))
    } else if c == "blue"@ {
        Some((false, 4))
    } else if c == "magenta"@ {
        Some((false, 5))
    } else if c == "cyan"@ {
        Some((false, 6))
    } else if c == "white"@ {
        Some((false, 7))
    } else if c == "bright-black"@ || c == "gray"@ || c == "grey"@ {
        Some((true, 0))
    } else if c == "bright-red"@ {
        Some((true, 1))
    } else if c == "bright-green"@ {
        Some((true, 2))
    } else if c == "bright-yellow"@ {
        Some((true, 3))
    } else if c == "bright-blue"@ {
        Some((true, 4))
    } else if c == "bright-magenta"@ {
        Some((true, 5))
    } else if c == "bright-cyan"@ {
        Some((true, 6))
    } else if c == "bright-white"@ {
        Some((true, 7))
    } else {
        None
    }
}

/// A colour argument as it is looked up: surrounding white space dropped, ASCII letters
/// lower-cased.
pub open spec fn color_key(color: Seq<char>) -> Seq<char> {
    trim(color).map_values(|x: char| ascii_lower(x))
}

/// The eight standard colour names in ANSI order: each name's position is its offset from
/// the base of its set.
pub open spec fn ansi_color_names() -> Seq<Seq<char>> {
    seq!["black"@, "red"@, "green"@, "yellow"@, "blue"@, "magenta"@, "cyan"@, "white"@]
}

/// Each standard colour name, and the same name after `bright-`, stands for its ANSI
/// position in the normal and the bright set; `gray` and `grey` are bright black.
pub proof fn lemma_ansi_color_names()
    ensures
        ansi_color_names().len() == 8,
        forall|k: int| 0 <= k < 8 ==> named_color(#[trigger] ansi_color_names()[k]) == Some((false, k)),
        forall|k: int| 0 <= k < 8 ==> named_color("bright-"@ + #[trigger] ansi_color_names()[k]) == Some((true, k)),
        named_color("gray"@) == Some((true, 0int)),
        named_color("grey"@) == Some((true, 0int)),
{
    reveal_strlit("black");
    reveal_strlit("red");
    reveal_strlit("green");
    reveal_strlit("yellow");
    reveal_strlit("blue");
    reveal_strlit("magenta");
    reveal_strlit("cyan");
    reveal_strlit("white");
    reveal_strlit("bright-");
    reveal_strlit("bright-black");
    reveal_strlit("gray");
    reveal_strlit("grey");
    reveal_strlit("bright-red");
    reveal_strlit("bright-green");
    reveal_strlit("bright-yellow");
    reveal_strlit("bright-blue");
    reveal_strlit("bright-magenta");
    reveal_strlit("bright-cyan");
    reveal_strlit("bright-white");
    assert(named_color("black"@) == Some((false, 0int)));
    assert("red"@.len() != "black"@.len());
    assert(named_color("red"@) == Some((false, 1int)));
    assert("green"@[0] != "black"@[0]);
    assert("green"@.len() != "red"@.len());
    assert(named_color("green"@) == Some((false, 2int)));
    assert("yellow"@.len() != "black"@.len());
    assert("yellow"@.len() != "red"@.len());
    assert("yellow"@.len() != "green"@.len());
    assert(named_color("yellow"@) == Some((false, 3int)));
    assert("blue"@.len() != "black"@.len());
    assert("blue"@.len() != "red"@.len());
    assert("blue"@.len() != "green"@.len());
    assert("blue"@.len() != "yellow"@.len());
    assert(named_color("blue"@) == Some((false, 4int)));
    assert("magenta"@.len() != "black"@.len());
    assert("magenta"@.len() != "red"@.len());
    assert("magenta"@.len() != "green"@.len());
    assert("magenta"@.len() != "yellow"@.len());
    assert("magenta"@.len() != "blue"@.len());
    assert(named_color("magenta"@) == Some((false, 5int)));
    assert("cyan"@[0] != "blue"@[0]);
    assert("cyan"@.len() != "black"@.len());
    assert("cyan"@.len() != "red"@.len());
    assert("cyan"@.len() != "green"@.len());
    assert("cyan"@.len() != "yellow"@.len());
    assert("cyan"@.len() != "magenta"@.len());
    assert(named_color("cyan"@) == Some((false, 6int)));
    assert("white"@[0] != "black"@[0]);
    assert("white"@[0] != "green"@[0]);
    assert("white"@.len() != "red"@.len());
    assert("white"@.len() != "yellow"@.len());
    assert("white"@.len() != "blue"@.len());
    assert("white"@.len() != "magenta"@.len());
    assert("white"@.len() != "cyan"@.len());
    assert(named_color("white"@) == Some((false, 7int)));
    assert("bright-black"@.len() != "black"@.len());
    assert("bright-black"@.len() != "red"@.len());
    assert("bright-black"@.len() != "green"@.len());
    assert("bright-black"@.len() != "yellow"@.len());
    assert("bright-black"@.len() != "blue"@.len());
    assert("bright-black"@.len() != "magenta"@.len());
    assert("bright-black"@.len() != "cyan"@.len());
    assert("bright-black"@.len() != "white"@.len());
    assert(named_color("bright-black"@) == Some((true, 0int)));
    assert("bright-red"@.len() != "black"@.len());
    assert("bright-red"@.len() != "red"@.len());
    assert("bright-red"@.len() != "green"@.len());
    assert("bright-red"@.len() != "yellow"@.len());
    assert("bright-red"@.len() != "blue"@.len());
    assert("bright-red"@.len() != "magenta"@.len());
    assert("bright-red"@.len() != "cyan"@.len());
    assert("bright-red"@.len() != "white"@.len());
    assert("bright-red"@.len() != "bright-black"@.len());
    assert("bright-red"@.len() != "gray"@.len());
    assert("bright-red"@.len() != "grey"@.len());
    assert(named_color("bright-red"@) == Some((true, 1int)));
    assert("bright-green"@[7] != "bright-black"@[7]);
    assert("bright-green"@.len() != "black"@.len());
    assert("bright-green"@.len() != "red"@.len());
    assert("bright-green"@.len() != "green"@.len());
    assert("bright-green"@.len() != "yellow"@.len());
    assert("bright-green"@.len() != "blue"@.len());
    assert("bright-green"@.len() != "magenta"@.len());
    assert("bright-green"@.len() != "cyan"@.len());
    assert("bright-green"@.len() != "white"@.len());
    assert("bright-green"@.len() != "gray"@.len());
    assert("bright-green"@.len() != "grey"@.len());
    assert("bright-green"@.len() != "bright-red"@.len());
    assert(named_color("bright-green"@) == Some((true, 2int)));
    assert("bright-yellow"@.len() != "black"@.len());
    assert("bright-yellow"@.len() != "red"@.len());
    assert("bright-yellow"@.len() != "green"@.len());
    assert("bright-yellow"@.len() != "yellow"@.len());
    assert("bright-yellow"@.len() != "blue"@.len());
    assert("bright-yellow"@.len() != "magenta"@.len());
    assert("bright-yellow"@.len() != "cyan"@.len());
    assert("bright-yellow"@.len() != "white"@.len());
    assert("bright-yellow"@.len() != "bright-black"@.len());
    assert("bright-yellow"@.len() != "gray"@.len());
    assert("bright-yellow"@.len() != "grey"@.len());
    assert("bright-yellow"@.len() != "bright-red"@.len());
    assert("bright-yellow"@.len() != "bright-green"@.len());
    assert(named_color("bright-yellow"@) == Some((true, 3int)));
    assert("bright-blue"@.len() != "black"@.len());
    assert("bright-blue"@.len() != "red"@.len());
    assert("bright-blue"@.len() != "green"@.len());
    assert("bright-blue"@.len() != "yellow"@.len());
    assert("bright-blue"@.len() != "blue"@.len());
    assert("bright-blue"@.len() != "magenta"@.len());
    assert("bright-blue"@.len() != "cyan"@.len());
    assert("bright-blue"@.len() != "white"@.len());
    assert("bright-blue"@.len() != "bright-black"@.len());
    assert("bright-blue"@.len() != "gray"@.len());
    assert("bright-blue"@.len() != "grey"@.len());
    assert("bright-blue"@.len() != "bright-red"@.len());
    assert("bright-blue"@.len() != "bright-green"@.len());
    assert("bright-blue"@.len() != "bright-yellow"@.len());
    assert(named_color("bright-blue"@) == Some((true, 4int)));
    assert("bright-magenta"@.len() != "black"@.len());
    assert("bright-magenta"@.len() != "red"@.len());
    assert("bright-magenta"@.len() != "green"@.len());
    assert("bright-magenta"@.len() != "yellow"@.len());
    assert("bright-magenta"@.len() != "blue"@.len());
    assert("bright-magenta"@.len() != "magenta"@.len());
    assert("bright-magenta"@.len() != "cyan"@.len());
    assert("bright-magenta"@.len() != "white"@.len());
    assert("bright-magenta"@.len() != "bright-black"@.len());
    assert("bright-magenta"@.len() != "gray"@.len());
    assert("bright-magenta"@.len() != "grey"@.len());
    assert("bright-magenta"@.len() != "bright-red"@.len());
    assert("bright-magenta"@.len() != "bright-green"@.len());
    assert("bright-magenta"@.len() != "bright-yellow"@.len());
    assert("bright-magenta"@.len() != "bright-blue"@.len());
    assert(named_color("bright-magenta"@) == Some((true, 5int)));
    assert("bright-cyan"@[7] != "bright-blue"@[7]);
    assert("bright-cyan"@.len() != "black"@.len());
    assert("bright-cyan"@.len() != "red"@.len());
    assert("bright-cyan"@.len() != "green"@.len());
    assert("bright-cyan"@.len() != "yellow"@.len());
    assert("bright-cyan"@.len() != "blue"@.len());
    assert("bright-cyan"@.len() != "magenta"@.len());
    assert("bright-cyan"@.len() != "cyan"@.len());
    assert("bright-cyan"@.len() != "white"@.len());
    assert("bright-cyan"@.len() != "bright-black"@.len());
    assert("bright-cyan"@.len() != "gray"@.len());
    assert("bright-cyan"@.len() != "grey"@.len());
    assert("bright-cyan"@.len() != "bright-red"@.len());
    assert("bright-cyan"@.len() != "bright-green"@.len());
    assert("bright-cyan"@.len() != "bright-yellow"@.len());
    assert("bright-cyan"@.len() != "bright-magenta"@.len());
    assert(named_color("bright-cyan"@) == Some((true, 6int)));
    assert("bright-white"@[7] != "bright-black"@[7]);
    assert("bright-white"@[7] != "bright-green"@[7]);
    assert("bright-white"@.len() != "black"@.len());
    assert("bright-white"@.len() != "red"@.len());
    assert("bright-white"@.len() != "green"@.len());
    assert("bright-white"@.len() != "yellow"@.len());
    assert("bright-white"@.len() != "blue"@.len());
    assert("bright-white"@.len() != "magenta"@.len());
    assert("bright-white"@.len() != "cyan"@.len());
    assert("bright-white"@.len() != "white"@.len());
    assert("bright-white"@.len() != "gray"@.len());
    assert("bright-white"@.len() != "grey"@.len());
    assert("bright-white"@.len() != "bright-red"@.len());
    assert("bright-white"@.len() != "bright-yellow"@.len());
    assert("bright-white"@.len() != "bright-blue"@.len());
    assert("bright-white"@.len() != "bright-magenta"@.len());
    assert("bright-white"@.len() != "bright-cyan"@.len());
    assert(named_color("bright-white"@) == Some((true, 7int)));
    assert("gray"@.len() != "black"@.len());
    assert("gray"@.len() != "red"@.len());
    assert("gray"@.len() != "green"@.len());
    assert("gray"@.len() != "yellow"@.len());
    assert("gray"@[0] != "blue"@[0]);
    assert("gray"@.len() != "magenta"@.len());
    assert("gray"@[0] != "cyan"@[0]);
    assert("gray"@.len() != "white"@.len());
    assert("gray"@.len() != "bright-black"@.len());
    assert(named_color("gray"@) == Some((true, 0int)));
    assert("grey"@.len() != "black"@.len());
    assert("grey"@.len() != "red"@.len());
    assert("grey"@.len() != "green"@.len());
    assert("grey"@.len() != "yellow"@.len());
    assert("grey"@[0] != "blue"@[0]);
    assert("grey"@.len() != "magenta"@.len());
    assert("grey"@[0] != "cyan"@[0]);
    assert("grey"@.len() != "white"@.len());
    assert("grey"@.len() != "bright-black"@.len());
    assert("grey"@[2] != "gray"@[2]);
    assert(named_color("grey"@) == Some((true, 0int)));
    let n = ansi_color_names();
    assert(n[0] == "black"@ && n[1] == "red"@ && n[2] == "green"@ && n[3] == "yellow"@);
    assert(n[4] == "blue"@ && n[5] == "magenta"@ && n[6] == "cyan"@ && n[7] == "white"@);
    assert("bright-"@ + n[0] =~= "bright-black"@);
    assert("bright-"@ + n[1] =~= "bright-red"@);
    assert("bright-"@ + n[2] =~= "bright-green"@);
    assert("bright-"@ + n[3] =~= "bright-yellow"@);
    assert("bright-"@ + n[4] =~= "bright-blue"@);
    assert("bright-"@ + n[5] =~= "bright-magenta"@);
    assert("bright-"@ + n[6] =~= "bright-cyan"@);
    assert("bright-"@ + n[7] =~= "bright-white"@);
    assert forall|k: int| 0 <= k < 8 implies named_color(#[trigger] n[k]) == Some((false, k))
        && named_color("bright-"@ + n[k]) == Some((true, k)) by {
        if k == 0 {} else if k == 1 {} else if k == 2 {} else if k == 3 {} else if k == 4 {} else if k == 5 {}
        else if k == 6 {} else {}
    }
}

/// The message an unknown colour is refused with.
pub open spec fn color_error() -> Seq<char> {
    "fg/bg expects a color name or 0-255 color index"@
}

/// The escape parameters for a colour: a name (case and surrounding white space ignored)
/// maps into the normal or bright set, and a number up to 255 selects from the indexed
/// palette.
pub open spec fn color_code_text(color: Seq<char>, normal_base: u8, bright_base: u8, indexed_prefix: u8) -> Result<Seq<char>, Seq<char>> {
    let c = color_key(color);
    match named_color(c) {
        Some((false, k)) => Ok(decimal((normal_base + k) as nat)),
        Some((true, k)) => Ok(decimal((bright_base + k) as nat)),
        None => match parse_unsigned(c, 255) {
            Some(i) => Ok(decimal(indexed_prefix as nat) + ";5;"@ + decimal(i)),
            None => Err(color_error()),
        },
    }
}

fn is_named(c: &Vec<char>, name: &str) -> (r: bool)
    ensures
        r == (c@ == name@),
{
    let n = chars_of(name);
    same_chars(c, &n)
}

fn lookup_color(c: &Vec<char>) -> (r: Option<(bool, u8)>)
    ensures
        match r {
            Some((b, k)) => named_color(c@) == Some((b, k as int)),
            None => named_color(c@) is None,
        },
{
    if is_named(c, "black") {
        Some((false, 0))
    } else if is_named(c, "red") {
        Some((false, 1))
    } else if is_named(c, "green") {
        Some((false, 2))
    } else if is_named(c, "yellow") {
        Some((false, 3))
    } else if is_named(c, "blue") {
        Some((false, 4))
    } else if is_named(c, "magenta") {
        Some((false, 5))
    } else if is_named(c, "cyan") {
        Some((false, 6))
    } else if is_named(c, "white") {
        Some((false, 7))
    } else if is_named(c, "bright-black") || is_named(c, "gray") || is_named(c, "grey") {
        Some((true, 0))
    } else if is_named(c, "bright-red") {
        Some((true, 1))
    } else if is_named(c, "bright-green") {
        Some((true, 2))
    } else if is_named(c, "bright-yellow") {
        Some((true, 3))
    } else if is_named(c, "bright-blue") {
        Some((true, 4))
    } else if is_named(c, "bright-magenta") {
        Some((true, 5))
    } else if is_named(c, "bright-cyan") {
        Some((true, 6))
    } else if is_named(c, "bright-white") {
        Some((true, 7))
    } else {
        None
    }
}

/// The escape parameters for a colour argument of `fg` or `bg`.
pub fn color_code(color: &str, normal_base: u8, bright_base: u8, indexed_prefix: u8) -> (r: Result<String, String>)
    requires
        normal_base + 7 <= u8::MAX,
        bright_base + 7 <= u8::MAX,
    ensures
        match r {
            Ok(c) => color_code_text(color@, normal_base, bright_base, indexed_prefix) == Ok::<Seq<char>, Seq<char>>(c@),
            Err(e) => color_code_text(color@, normal_base, bright_base, indexed_prefix) == Err::<Seq<char>, Seq<char>>(e@),
        },
        forall|k: int| 0 <= k < 8 && color_key(color@) == #[trigger] ansi_color_names()[k] ==> (r matches Ok(c)
            && c@ == decimal((normal_base + k) as nat)),
        forall|k: int| 0 <= k < 8 && color_key(color@) == "bright-"@ + #[trigger] ansi_color_names()[k] ==> (r matches Ok(c)
            && c@ == decimal((bright_base + k) as nat)),
        color_key(color@) == "gray"@ || color_key(color@) == "grey"@ ==> (r matches Ok(c) && c@ == decimal(
            bright_base as nat,
        )),
{
    proof {
        lemma_ansi_color_names();
    }
    let v = chars_of(color);
    let t = trim_chars(&v);
    let c = to_ascii_lower(&t);
    match lookup_color(&c) {
        Some((bright, k)) => {
            let code = if bright { bright_base + k } else { normal_base + k };
            let mut out: Vec<char> = Vec::new();
            push_decimal(&mut out, code as u128);
            Ok(string_of(&out))
        },
        None => match parse_decimal(&c, 255) {
            Some(i) => {
                let mut out: Vec<char> = Vec::new();
                push_decimal(&mut out, indexed_prefix as u128);
                push_text(&mut out, ";5;");
                push_decimal(&mut out, i as u128);
                Ok(string_of(&out))
            },
            None => Err("fg/bg expects a color name or 0-255 color index".to_owned()),
        },
    }
}

/// `value` coloured: the colour's parameters from `color_code` around the text.
pub fn colorize(value: &str, color: &str, normal_base: u8, bright_base: u8, indexed_prefix: u8) -> (r: Result<String, String>)
    requires
        normal_base + 7 <= u8::MAX,
        bright_base + 7 <= u8::MAX,
    ensures
        match color_code_text(color@, normal_base, bright_base, indexed_prefix) {
            Ok(c) => r matches Ok(s) && s@ == sgr(c, value@),
            Err(e) => r matches Err(m) && m@ == e,
        },
{
    let code = match color_code(color, normal_base, bright_base, indexed_prefix) {
        Ok(c) => c,
        Err(e) => {
            return Err(e);
        },
    };
    let cv = chars_of(code.as_str());
    let mut out: Vec<char> = Vec::new();
    push_sgr(&mut out, &cv, value);
    assert(out@ =~= sgr(code@, value@));
    Ok(string_of(&out))
}

/// Colours text in the foreground set (30, 90, 38;5).
pub fn fg(value: &str, color: &str) -> (r: Result<String, String>)
    ensures
        match color_code_text(color@, 30, 90, 38) {
            Ok(c) => r matches Ok(s) && s@ == sgr(c, value@),
            Err(e) => r matches Err(m) && m@ == e,
        },
{
    colorize(value, color, 30, 90, 38)
}

/// Colours text in the background set (40, 100, 48;5).
pub fn bg(value: &str, color: &str) -> (r: Result<String, String>)
    ensures
        match color_code_text(color@, 40, 100, 48) {
            Ok(c) => r matches Ok(s) && s@ == sgr(c, value@),
            Err(e) => r matches Err(m) && m@ == e,
        },
{
    colorize(value, color, 40, 100, 48)
}

} // verus!
