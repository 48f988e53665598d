//! The parts of the status line around the net diff: the colour palette, the
//! theme choice, the branch label and the context-window gauge.
use crate::event::{json_member_of, json_member_text};
use crate::text::{contains, str_contains};
use vstd::prelude::*;

verus! {

pub const COLOR_BRANCH_LIGHT: &'static str = "\x1b[38;5;32m";
pub const COLOR_ADDED_LIGHT: &'static str = "\x1b[38;5;71m";
pub const COLOR_REMOVED_LIGHT: &'static str = "\x1b[38;5;131m";
pub const COLOR_MODEL_LIGHT: &'static str = "\x1b[38;5;97m";
pub const COLOR_TOKENS_LIGHT: &'static str = "\x1b[38;5;173m";

pub const COLOR_BRANCH_DARK: &'static str = "\x1b[38;5;117m";
pub const COLOR_ADDED_DARK: &'static str = "\x1b[38;5;114m";
pub const COLOR_REMOVED_DARK: &'static str = "\x1b[38;5;210m";
pub const COLOR_MODEL_DARK: &'static str = "\x1b[38;5;183m";
pub const COLOR_TOKENS_DARK: &'static str = "\x1b[38;5;215m";

pub const COLOR_RESET: &'static str = "\x1b[0m";

/// The escape sequences that colour each part of the line.
pub struct Colors {
    pub branch: &'static str,
    pub added: &'static str,
    pub removed: &'static str,
    pub model: &'static str,
    pub tokens: &'static str,
}

/// The light palette for a light theme, the dark one otherwise.
pub fn palette(light: bool) -> (r: Colors)
    ensures
        light ==> is_light_palette(r),
        !light ==> is_dark_palette(r),
{
    if light {
        Colors {
            branch: COLOR_BRANCH_LIGHT,
            added: COLOR_ADDED_LIGHT,
            removed: COLOR_REMOVED_LIGHT,
            model: COLOR_MODEL_LIGHT,
            tokens: COLOR_TOKENS_LIGHT,
        }
    } else {
        Colors {
            branch: COLOR_BRANCH_DARK,
            added: COLOR_ADDED_DARK,
            removed: COLOR_REMOVED_DARK,
            model: COLOR_MODEL_DARK,
            tokens: COLOR_TOKENS_DARK,
        }
    }
}

/// The light palette.
pub open spec fn is_light_palette(c: Colors) -> bool {
    &&& c.branch@ == COLOR_BRANCH_LIGHT@
    &&& c.added@ == COLOR_ADDED_LIGHT@
    &&& c.removed@ == COLOR_REMOVED_LIGHT@
    &&& c.model@ == COLOR_MODEL_LIGHT@
    &&& c.tokens@ == COLOR_TOKENS_LIGHT@
}

/// The dark palette.
pub open spec fn is_dark_palette(c: Colors) -> bool {
    &&& c.branch@ == COLOR_BRANCH_DARK@
    &&& c.added@ == COLOR_ADDED_DARK@
    &&& c.removed@ == COLOR_REMOVED_DARK@
    &&& c.model@ == COLOR_MODEL_DARK@
    &&& c.tokens@ == COLOR_TOKENS_DARK@
}

/// A configuration selects the light theme when its `theme` member is a
/// string that mentions "light".
pub open spec fn selects_light(config: Seq<char>) -> bool {
    json_member_of(config, "theme"@) matches Some(Ok(Some(t))) && contains(t, "light"@)
}

/// A theme name is light when it mentions "light".
pub fn is_light_theme(theme: &str) -> (r: bool)
    ensures
        r == contains(theme@, "light"@),
{
    str_contains(theme, "light")
}

/// Whether an editor configuration (JSON text) selects a light theme: its
/// `theme` member is a string that mentions "light". Anything else, text
/// that is not JSON included, means dark.
pub fn theme_is_light(config: &str) -> (r: bool)
    ensures
        r == selects_light(config@),
{
    match json_member_text(config, "theme") {
        Some(Ok(Some(t))) => is_light_theme(t.as_str()),
        _ => false,
    }
}

/// The palette that a configuration text selects; the dark one when there
/// is no configuration.
pub fn detect_theme(config: Option<String>) -> (r: Colors)
    ensures
        match config {
            Some(c) => if selects_light(c@) {
                is_light_palette(r)
            } else {
                is_dark_palette(r)
            },
            None => is_dark_palette(r),
        },
{
    match config {
        Some(c) => palette(theme_is_light(c.as_str())),
        None => palette(false),
    }
}

/// What `str::trim` returns for `s`.
pub uninterp spec fn trimmed(s: Seq<char>) -> Seq<char>;

/// Relies on `str::trim`: the text without leading and trailing whitespace;
/// the result depends on the text alone.
#[verifier::external_body]
fn trim_text(s: &str) -> (r: String)
    ensures
        r@ == trimmed(s@),
{
    s.trim().to_string()
}

/// The branch label shown for the output of the branch query.
pub open spec fn branch_label_of(output: Option<Seq<char>>) -> Seq<char> {
    match output {
        Some(s) => if trimmed(s).len() > 0 {
            trimmed(s)
        } else {
            "no-git"@
        },
        None => "no-git"@,
    }
}

/// The branch name from the query's output, trimmed; `no-git` when there
/// is no output or it is blank.
pub fn get_git_branch(output: Option<String>) -> (r: String)
    ensures
        r@ == branch_label_of(
            match output {
                Some(s) => Some(s@),
                None => None,
            },
        ),
{
    match output {
        Some(s) => {
            let t = trim_text(s.as_str());
            if t.as_str().is_empty() {
                String::from_str("no-git")
            } else {
                t
            }
        },
        None => String::from_str("no-git"),
    }
}

pub struct Model {
    pub display_name: String,
}

pub struct CurrentUsage {
    pub input_tokens: Option<u64>,
    pub cache_creation_input_tokens: Option<u64>,
    pub cache_read_input_tokens: Option<u64>,
}

pub struct ContextWindow {
    pub current_usage: Option<CurrentUsage>,
    pub context_window_size: Option<u64>,
}

/// The description of the session that the status line is drawn for.
pub struct Input {
    pub cwd: String,
    pub transcript_path: String,
    pub model: Model,
    pub context_window: Option<ContextWindow>,
}

pub open spec fn or_zero(o: Option<u64>) -> nat {
    match o {
        Some(v) => v as nat,
        None => 0,
    }
}

/// Tokens in use: the three input counts together, zero when unknown.
pub open spec fn tokens_used(c: ContextWindow) -> nat {
    match c.current_usage {
        Some(u) => or_zero(u.input_tokens) + or_zero(u.cache_creation_input_tokens) + or_zero(
            u.cache_read_input_tokens,
        ),
        None => 0,
    }
}

/// Filled cells of the five-cell gauge: one per full fifth of the window,
/// all five once usage reaches or passes the whole window.
pub open spec fn filled_cells(used: nat, size: nat) -> nat
    recommends
        size > 0,
{
    let f = (used * 100 / size) / 20;
    if f > 5 {
        5
    } else {
        f
    }
}

pub open spec fn repeat_char(ch: char, n: nat) -> Seq<char> {
    Seq::new(n, |i: int| ch)
}

/// `n` in decimal, without leading zeros.
pub open spec fn dec_text(n: nat) -> Seq<char>
    decreases n,
{
    if n < 10 {
        seq![dec_digit(n)]
    } else {
        dec_text(n / 10).push(dec_digit(n % 10))
    }
}

pub open spec fn dec_digit(d: nat) -> char {
    seq!['0', '1', '2', '3', '4', '5', '6', '7', '8', '9'][d as int]
}

/// The text of one decimal digit.
fn dec_digit_text(d: u128) -> (r: &'static str)
    requires
        d < 10,
    ensures
        r@ == seq![dec_digit(d as nat)],
{
    proof {
        reveal_strlit("0");
        reveal_strlit("1");
        reveal_strlit("2");
        reveal_strlit("3");
        reveal_strlit("4");
        reveal_strlit("5");
        reveal_strlit("6");
        reveal_strlit("7");
        reveal_strlit("8");
        reveal_strlit("9");
    }
    match d {
        0 => "0",
        1 => "1",
        2 => "2",
        3 => "3",
        4 => "4",
        5 => "5",
        6 => "6",
        7 => "7",
        8 => "8",
        _ => "9",
    }
}

/// Appends `n` in decimal.
fn push_decimal(s: &mut String, n: u128)
    ensures
        final(s)@ == old(s)@ + dec_text(n as nat),
    decreases n,
{
    if n >= 10 {
        push_decimal(s, n / 10);
    }
    s.append(dec_digit_text(n % 10));
    assert(s@ =~= old(s)@ + dec_text(n as nat));
}

/// `n` in decimal.
fn decimal(n: u128) -> (r: String)
    ensures
        r@ == dec_text(n as nat),
{
    let mut r = String::new();
    push_decimal(&mut r, n);
    assert(r@ =~= dec_text(n as nat));
    r
}

/// The gauge text: filled and empty cells, then usage and window size in
/// thousands of tokens, coloured.
pub open spec fn token_text(tokens: Seq<char>, used: nat, size: nat) -> Seq<char> {
    let filled = filled_cells(used, size);
    tokens + repeat_char('\u{25B0}', filled) + repeat_char('\u{25B1}', (5 - filled) as nat) + " "@
        + dec_text(used / 1000) + "k/"@ + dec_text(size / 1000) + "k tokens"@ + COLOR_RESET@
}

/// The context-window gauge; empty when the window or its size is unknown
/// or zero.
pub open spec fn token_info_of(input: Input, tokens: Seq<char>) -> Seq<char> {
    match input.context_window {
        None => Seq::empty(),
        Some(c) => if or_zero(c.context_window_size) == 0 {
            Seq::empty()
        } else {
            token_text(tokens, tokens_used(c), or_zero(c.context_window_size))
        },
    }
}

/// Appends `n` copies of a one-character text.
fn push_cells(s: &mut String, cell: &str, n: u64)
    requires
        cell@.len() == 1,
    ensures
        final(s)@ == old(s)@ + repeat_char(cell@[0], n as nat),
{
    let mut k: u64 = 0;
    while k < n
        invariant
            k <= n,
            cell@.len() == 1,
            s@ == old(s)@ + repeat_char(cell@[0], k as nat),
        decreases n - k,
    {
        s.append(cell);
        k = k + 1;
        assert(s@ =~= old(s)@ + repeat_char(cell@[0], k as nat));
    }
}

/// The context-window gauge of the status line. The counts are added in
/// 128 bits, so no input overflows.
pub fn get_token_info(input: &Input, colors: &Colors) -> (r: String)
    ensures
        r@ == token_info_of(*input, colors.tokens@),
{
    let ctx = match &input.context_window {
        Some(c) => c,
        None => return String::new(),
    };
    let size = match ctx.context_window_size {
        Some(s) => s,
        None => 0,
    };
    if size == 0 {
        return String::new();
    }
    let current: u128 = match &ctx.current_usage {
        Some(u) => {
            let a = match u.input_tokens {
                Some(v) => v,
                None => 0,
            };
            let b = match u.cache_creation_input_tokens {
                Some(v) => v,
                None => 0,
            };
            let c = match u.cache_read_input_tokens {
                Some(v) => v,
                None => 0,
            };
            a as u128 + b as u128 + c as u128
        },
        None => 0,
    };
    assert(current == tokens_used(*ctx));
    let pct = current * 100 / (size as u128);
    let filled: u64 = if pct / 20 > 5 {
        5
    } else {
        (pct / 20) as u64
    };
    let mut r = String::from_str(colors.tokens);
    proof {
        reveal_strlit("\u{25B0}");
        reveal_strlit("\u{25B1}");
    }
    push_cells(&mut r, "\u{25B0}", filled);
    push_cells(&mut r, "\u{25B1}", 5 - filled);
    r.append(" ");
    r.append(decimal(current / 1000).as_str());
    r.append("k/");
    r.append(decimal((size / 1000) as u128).as_str());
    r.append("k tokens");
    r.append(COLOR_RESET);
    r
}

} // verus!
