//! Reading a line typed by the user of a client.
use vstd::prelude::*;

verus! {

/// A line typed by the user: a message to send, or the request to quit.
pub enum Input {
    Message(String),
    Quit,
}

/// The line that asks to quit.
pub open spec fn quit_line() -> Seq<char> {
    seq![':', 'q']
}

/// `s` without leading and trailing white space, as `str::trim` gives it.
pub uninterp spec fn trimmed_of(s: Seq<char>) -> Seq<char>;

/// Relies on `str::trim`: it takes white space off both ends.
#[verifier::external_body]
fn trim_text(s: &str) -> (r: String)
    ensures
        r@ == trimmed_of(s@),
{
    s.trim().to_owned()
}

/// Reads an already trimmed line: `:q` quits, anything else is a message.
pub fn classify_line(t: &str) -> (r: Input)
    ensures
        t@ == quit_line() <==> r is Quit,
        r matches Input::Message(m) ==> m@ == t@,
{
    let n = t.unicode_len();
    if n == 2 {
        let c0 = t.get_char(0);
        let c1 = t.get_char(1);
        if c0 == ':' && c1 == 'q' {
            assert(t@ =~= quit_line());
            return Input::Quit;
        }
    }
    Input::Message(t.to_owned())
}

/// Reads a raw line typed by the user: trimmed, `:q` quits, anything else is
/// a message.
pub fn parse_input(line: &str) -> (r: Input)
    ensures
        trimmed_of(line@) == quit_line() <==> r is Quit,
        r matches Input::Message(m) ==> m@ == trimmed_of(line@),
{
    let t = trim_text(line);
    classify_line(t.as_str())
}

} // verus!
