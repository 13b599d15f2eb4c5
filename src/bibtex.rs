use vstd::prelude::*;

use crate::text::chars_of;

verus! {

/// Relies on FromIterator<char> for String: the string of these characters.
#[verifier::external_body]
pub(crate) fn string_of(chars: &Vec<char>) -> (r: String)
    ensures
        r@ == chars@,
{
    chars.iter().collect()
}

/// ASCII whitespace: space, tab, line feed, form feed and carriage return.
pub open spec fn is_ascii_whitespace(c: char) -> bool {
    c == ' ' || c == '\t' || c == '\n' || c == '\u{c}' || c == '\r'
}

/// `4 * level` spaces, none for a level below one.
pub open spec fn indentation(level: int) -> Seq<char> {
    Seq::new(if level > 0 { (4 * level) as nat } else { 0 }, |i: int| ' ')
}

/// The state of the prettifier: what it wrote, whether it is at the start of
/// a line, and the depth of braces.
pub struct PrettyState {
    pub written: Seq<char>,
    pub new_line: bool,
    pub depth: int,
}

/// One character through the prettifier. The first character of a line that
/// is not whitespace is indented by the depth, one level less for a closing
/// brace; whitespace at the start of a line is dropped.
pub open spec fn pretty_step(s: PrettyState, c: char) -> PrettyState {
    let starts = s.new_line && !is_ascii_whitespace(c);
    let written = if starts {
        s.written + indentation(if c == '}' { s.depth - 1 } else { s.depth })
    } else {
        s.written
    };
    let new_line = s.new_line && !starts;
    if c == '{' {
        PrettyState { written: written.push(c), new_line, depth: s.depth + 1 }
    } else if c == '}' {
        PrettyState { written: written.push(c), new_line, depth: s.depth - 1 }
    } else if c == '\n' {
        PrettyState { written: written.push(c), new_line: true, depth: s.depth }
    } else if is_ascii_whitespace(c) {
        PrettyState {
            written: if new_line {
                written
            } else {
                written.push(c)
            },
            new_line,
            depth: s.depth,
        }
    } else {
        PrettyState { written: written.push(c), new_line, depth: s.depth }
    }
}

/// The prettifier's state after `s`.
pub open spec fn pretty_state(s: Seq<char>) -> PrettyState
    decreases s.len(),
{
    if s.len() == 0 {
        PrettyState { written: Seq::empty(), new_line: true, depth: 0 }
    } else {
        pretty_step(pretty_state(s.drop_last()), s.last())
    }
}

/// The indented form of a citation record, ending with a line feed.
pub open spec fn pretty(s: Seq<char>) -> Seq<char> {
    let w = pretty_state(s).written;
    if w.len() > 0 && w.last() == '\n' {
        w
    } else {
        w.push('\n')
    }
}

proof fn lemma_depth_bounded(s: Seq<char>)
    ensures
        -s.len() <= pretty_state(s).depth <= s.len(),
    decreases s.len(),
{
    if s.len() > 0 {
        lemma_depth_bounded(s.drop_last());
    }
}

/// Indents a citation record by the nesting of its braces, four spaces a
/// level.
pub fn prettify(bibtex: &String) -> (r: String)
    requires
        bibtex@.len() <= i64::MAX,
    ensures
        r@ == pretty(bibtex@),
{
    let input = chars_of(bibtex.as_str());
    let mut out: Vec<char> = Vec::new();
    let mut new_line = true;
    let mut depth: i64 = 0;
    let mut i: usize = 0;
    while i < input.len()
        invariant
            input@ == bibtex@,
            input@.len() <= i64::MAX,
            i <= input@.len(),
            out@ == pretty_state(input@.take(i as int)).written,
            new_line == pretty_state(input@.take(i as int)).new_line,
            depth == pretty_state(input@.take(i as int)).depth,
        decreases input@.len() - i,
    {
        let c = input[i];
        proof {
            lemma_depth_bounded(input@.take(i as int));
            assert(input@.take(i + 1).drop_last() =~= input@.take(i as int));
        }
        let ws = c == ' ' || c == '\t' || c == '\n' || c == '\u{c}' || c == '\r';
        if new_line && !ws {
            new_line = false;
            let level = if c == '}' {
                depth - 1
            } else {
                depth
            };
            let ghost before = out@;
            let mut k: i64 = 0;
            while k < level
                invariant
                    0 <= k,
                    level >= 0 ==> k <= level,
                    level < 0 ==> k == 0,
                    out@ == before + Seq::new((4 * k) as nat, |j: int| ' '),
                decreases level - k,
            {
                out.push(' ');
                out.push(' ');
                out.push(' ');
                out.push(' ');
                assert(out@ =~= before + Seq::new((4 * (k + 1)) as nat, |j: int| ' '));
                k = k + 1;
            }
            assert(out@ =~= before + indentation(level as int));
        }
        if c == '{' {
            depth = depth + 1;
            out.push('{');
        } else if c == '}' {
            depth = depth - 1;
            out.push('}');
        } else if c == '\n' {
            new_line = true;
            out.push('\n');
        } else if ws {
            if !new_line {
                out.push(c);
            }
        } else {
            out.push(c);
        }
        i = i + 1;
    }
    assert(input@.take(input@.len() as int) =~= input@);
    if !(out.len() > 0 && out[out.len() - 1] == '\n') {
        out.push('\n');
    }
    string_of(&out)
}

} // verus!
