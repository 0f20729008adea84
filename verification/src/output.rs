//! The output selectors of the renderers: output format, diagram direction,
//! and detail level, each parsed from its command-line word.

use vstd::prelude::*;

use crate::text::chars_vec;

verus! {

/// Output format for visualization.
#[derive(Debug, Clone, Copy)]
pub enum OutputFormat {
    Ascii,
    Mermaid,
}

/// Diagram direction (applies to the graph-markup renderer only).
#[derive(Debug, Clone, Copy)]
pub enum Direction {
    LeftToRight,
    TopDown,
}

/// Detail level for the diagram.
#[derive(Debug, Clone, Copy)]
pub enum DetailLevel {
    /// Only show the HTTP handler chain.
    HandlerChain,
    /// Show all interfaces.
    AllInterfaces,
    /// Show everything including internal details.
    Full,
}

impl Default for OutputFormat {
    /// The default output format is the textual box diagram.
    fn default() -> (r: Self)
        ensures
            r is Ascii,
    {
        OutputFormat::Ascii
    }
}

impl Default for Direction {
    /// The default direction is left to right.
    fn default() -> (r: Self)
        ensures
            r is LeftToRight,
    {
        Direction::LeftToRight
    }
}

impl Default for DetailLevel {
    /// The default detail level shows only the HTTP handler chain.
    fn default() -> (r: Self)
        ensures
            r is HandlerChain,
    {
        DetailLevel::HandlerChain
    }
}

/// `x` reads as the lower-case letter `y` under ASCII case folding: either
/// the characters are equal, or `y` is an ASCII lower-case letter and `x`
/// its upper-case form.
pub open spec fn char_ieq(x: char, y: char) -> bool {
    (x as u32) == (y as u32) || ((y as u32) >= 97 && (y as u32) <= 122 && (x as u32) + 32 == (
    y as u32))
}

/// `a` equals the lower-case keyword `b` up to ASCII case.
pub open spec fn ascii_ieq(a: Seq<char>, b: Seq<char>) -> bool {
    a.len() == b.len() && forall|i: int| 0 <= i < a.len() ==> char_ieq(a[i], #[trigger] b[i])
}

/// Whether `s` equals the lower-case keyword `kw` up to ASCII case.
fn eq_ignore_case(s: &Vec<char>, kw: &str) -> (r: bool)
    ensures
        r == ascii_ieq(s@, kw@),
{
    let kv = chars_vec(kw);
    if s.len() != kv.len() {
        return false;
    }
    let n = s.len();
    let mut i: usize = 0;
    while i < n
        invariant
            n == s@.len(),
            n == kv@.len(),
            kv@ == kw@,
            i <= n,
            forall|k: int| 0 <= k < i ==> char_ieq(s@[k], #[trigger] kw@[k]),
        decreases n - i,
    {
        let x = s[i] as u32;
        let y = kv[i] as u32;
        if !(x == y || (y >= 97 && y <= 122 && x == y - 32)) {
            proof {
                assert(!char_ieq(s@[i as int], kw@[i as int]));
            }
            return false;
        }
        i = i + 1;
    }
    true
}

/// An error message of the shape `prefix + word + suffix`.
fn message_for(prefix: &str, word: &str, suffix: &str) -> (r: String)
    ensures
        r@ == prefix@ + word@ + suffix@,
{
    let mut r = String::new();
    r.append(prefix);
    r.append(word);
    r.append(suffix);
    proof {
        assert(r@ =~= prefix@ + word@ + suffix@);
    }
    r
}

/// An error message of the shape `prefix + word`.
fn message_of(prefix: &str, word: &str) -> (r: String)
    ensures
        r@ == prefix@ + word@,
{
    let mut r = String::new();
    r.append(prefix);
    r.append(word);
    proof {
        assert(r@ =~= prefix@ + word@);
    }
    r
}

/// Parse an output format word, ignoring ASCII case: `ascii` or `mermaid`;
/// anything else is rejected with a message naming the word.
pub fn parse_output_format(s: &str) -> (r: Result<OutputFormat, String>)
    ensures
        (r matches Ok(f) && f is Ascii) <==> ascii_ieq(s@, "ascii"@),
        (r matches Ok(f) && f is Mermaid) <==> ascii_ieq(s@, "mermaid"@),
        r matches Err(e) ==> !ascii_ieq(s@, "ascii"@) && !ascii_ieq(s@, "mermaid"@) && e@
            == "Invalid output format: "@ + s@ + ". Valid values: ascii, mermaid"@,
{
    proof {
        reveal_strlit("ascii");
        reveal_strlit("mermaid");
    }
    let v = chars_vec(s);
    if eq_ignore_case(&v, "ascii") {
        Ok(OutputFormat::Ascii)
    } else if eq_ignore_case(&v, "mermaid") {
        Ok(OutputFormat::Mermaid)
    } else {
        Err(message_for("Invalid output format: ", s, ". Valid values: ascii, mermaid"))
    }
}

/// Parse a direction word, ignoring ASCII case: `lr` or `left-to-right`,
/// `td` or `top-down`; anything else is rejected with a message naming the
/// word.
pub fn parse_direction(s: &str) -> (r: Result<Direction, String>)
    ensures
        (r matches Ok(d) && d is LeftToRight) <==> (ascii_ieq(s@, "lr"@) || ascii_ieq(
            s@,
            "left-to-right"@,
        )),
        (r matches Ok(d) && d is TopDown) <==> ((ascii_ieq(s@, "td"@) || ascii_ieq(
            s@,
            "top-down"@,
        )) && !(ascii_ieq(s@, "lr"@) || ascii_ieq(s@, "left-to-right"@))),
        r matches Err(e) ==> !ascii_ieq(s@, "lr"@) && !ascii_ieq(s@, "left-to-right"@)
            && !ascii_ieq(s@, "td"@) && !ascii_ieq(s@, "top-down"@) && e@ == "Invalid direction: "@
            + s@,
{
    let v = chars_vec(s);
    if eq_ignore_case(&v, "lr") || eq_ignore_case(&v, "left-to-right") {
        Ok(Direction::LeftToRight)
    } else if eq_ignore_case(&v, "td") || eq_ignore_case(&v, "top-down") {
        Ok(Direction::TopDown)
    } else {
        Err(message_of("Invalid direction: ", s))
    }
}

/// Parse a detail-level word, ignoring ASCII case: `handler-chain` or
/// `handler`, `all-interfaces` or `all`, or `full`; anything else is
/// rejected with a message naming the word.
pub fn parse_detail(s: &str) -> (r: Result<DetailLevel, String>)
    ensures
        (r matches Ok(d) && d is HandlerChain) <==> (ascii_ieq(s@, "handler-chain"@) || ascii_ieq(
            s@,
            "handler"@,
        )),
        (r matches Ok(d) && d is AllInterfaces) <==> ((ascii_ieq(s@, "all-interfaces"@)
            || ascii_ieq(s@, "all"@)) && !(ascii_ieq(s@, "handler-chain"@) || ascii_ieq(
            s@,
            "handler"@,
        ))),
        (r matches Ok(d) && d is Full) <==> (ascii_ieq(s@, "full"@) && !(ascii_ieq(
            s@,
            "handler-chain"@,
        ) || ascii_ieq(s@, "handler"@)) && !(ascii_ieq(s@, "all-interfaces"@) || ascii_ieq(
            s@,
            "all"@,
        ))),
        r matches Err(e) ==> e@ == "Invalid detail level: "@ + s@,
{
    let v = chars_vec(s);
    if eq_ignore_case(&v, "handler-chain") || eq_ignore_case(&v, "handler") {
        Ok(DetailLevel::HandlerChain)
    } else if eq_ignore_case(&v, "all-interfaces") || eq_ignore_case(&v, "all") {
        Ok(DetailLevel::AllInterfaces)
    } else if eq_ignore_case(&v, "full") {
        Ok(DetailLevel::Full)
    } else {
        Err(message_of("Invalid detail level: ", s))
    }
}

impl core::str::FromStr for OutputFormat {
    type Err = String;

    fn from_str(s: &str) -> Result<Self, String> {
        parse_output_format(s)
    }
}

impl core::str::FromStr for Direction {
    type Err = String;

    fn from_str(s: &str) -> Result<Self, String> {
        parse_direction(s)
    }
}

impl core::str::FromStr for DetailLevel {
    type Err = String;

    fn from_str(s: &str) -> Result<Self, String> {
        parse_detail(s)
    }
}

impl Direction {
    /// The direction word of the graph-markup header.
    pub fn to_mermaid(&self) -> (r: &'static str)
        ensures
            self is LeftToRight ==> r@ == "LR"@,
            self is TopDown ==> r@ == "TD"@,
    {
        match self {
            Direction::LeftToRight => "LR",
            Direction::TopDown => "TD",
        }
    }
}

} // verus!
