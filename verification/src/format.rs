//! Plain-text rendering of the search output: decimal line numbers, the
//! `<num>:  <text>` form of a printed line, and the informational banner
//! that opens a run. Coloring is a presentation concern left to callers.

use vstd::prelude::*;
use vstd::string::StrSliceExecFns;
use vstd::string::StringExecFns;

use crate::config::Config;

verus! {

/// The decimal digit character for a value below ten.
pub open spec fn spec_digit_char(d: nat) -> char {
    ((d + 48) as u8) as char
}

/// The decimal rendering of a number, most significant digit first.
pub open spec fn spec_dec_str(n: nat) -> Seq<char>
    decreases n,
{
    if n < 10 {
        seq![spec_digit_char(n)]
    } else {
        spec_dec_str(n / 10).push(spec_digit_char(n % 10))
    }
}

/// Appends the decimal rendering of `n`.
fn push_dec(s: &mut String, n: usize)
    ensures
        final(s)@ == old(s)@ + spec_dec_str(n as nat),
    decreases n,
{
    if n >= 10 {
        push_dec(s, n / 10);
    }
    let d: u8 = (n % 10) as u8 + 48;
    s.push(d as char);
    proof {
        if n >= 10 {
            assert((old(s)@ + spec_dec_str((n / 10) as nat)).push(spec_digit_char(n as nat % 10))
                =~= old(s)@ + spec_dec_str(n as nat));
        } else {
            assert(old(s)@.push(spec_digit_char(n as nat)) =~= old(s)@ + spec_dec_str(n as nat));
        }
    }
}

/// Relies on String::push (std): it appends exactly the given character.
pub assume_specification[ String::push ](s: &mut String, ch: char)
    ensures
        final(s)@ == old(s)@.push(ch),
;

/// The decimal rendering of a line number.
pub fn usize_to_string(n: usize) -> (s: String)
    ensures
        s@ == spec_dec_str(n as nat),
{
    let mut s = String::new();
    push_dec(&mut s, n);
    proof {
        assert(Seq::<char>::empty() + spec_dec_str(n as nat) =~= spec_dec_str(n as nat));
    }
    s
}

/// The printed form of one output line: `<num>:  <text>` when line numbers
/// are enabled, the text alone otherwise.
pub open spec fn spec_plain_line(num: nat, text: Seq<char>, with_num: bool) -> Seq<char> {
    if with_num {
        spec_dec_str(num) + ":  "@ + text
    } else {
        text
    }
}

/// Renders one output line, optionally prefixed with its line number.
pub fn format_plain_line(line_num: usize, line_content: &str, with_line_number: bool) -> (s: String)
    ensures
        s@ == spec_plain_line(line_num as nat, line_content@, with_line_number),
{
    if with_line_number {
        let mut s = usize_to_string(line_num);
        s.append(":  ");
        s.append(line_content);
        proof {
            assert(spec_dec_str(line_num as nat) + ":  "@ + line_content@ =~= s@);
        }
        s
    } else {
        line_content.to_owned()
    }
}

/// The banner that opens a run: the query and the file path, followed by
/// one parenthesized line for each option that is switched on.
pub open spec fn spec_info_text(
    query: Seq<char>,
    file_path: Seq<char>,
    ignore_case: bool,
    line_number: bool,
    before_num: usize,
    after_num: usize,
) -> Seq<char> {
    "Searching for '"@ + query + "' in file '"@ + file_path + "'..."@ + (if ignore_case {
        "\n(Case-insensitive search)"@
    } else {
        Seq::<char>::empty()
    }) + (if line_number {
        "\n(Line numbers enabled)"@
    } else {
        Seq::<char>::empty()
    }) + (if before_num > 0 {
        "\n(Context before: "@ + spec_dec_str(before_num as nat) + " lines)"@
    } else {
        Seq::<char>::empty()
    }) + (if after_num > 0 {
        "\n(Context after: "@ + spec_dec_str(after_num as nat) + " lines)"@
    } else {
        Seq::<char>::empty()
    })
}

/// Renders the informational banner for a run under `config`, with the
/// two context counts already resolved.
pub fn search_info_text(config: &Config, before_num: usize, after_num: usize) -> (s: String)
    ensures
        s@ == spec_info_text(
            config.query@,
            config.file_path@,
            config.ignore_case,
            config.line_number,
            before_num,
            after_num,
        ),
{
    let mut out = String::new();
    out.append("Searching for '");
    out.append(config.query.as_str());
    out.append("' in file '");
    out.append(config.file_path.as_str());
    out.append("'...");
    if config.ignore_case {
        out.append("\n(Case-insensitive search)");
    }
    if config.line_number {
        out.append("\n(Line numbers enabled)");
    }
    if before_num > 0 {
        out.append("\n(Context before: ");
        let num = usize_to_string(before_num);
        out.append(num.as_str());
        out.append(" lines)");
    }
    if after_num > 0 {
        out.append("\n(Context after: ");
        let num = usize_to_string(after_num);
        out.append(num.as_str());
        out.append(" lines)");
    }
    proof {
        assert(out@ =~= spec_info_text(
            config.query@,
            config.file_path@,
            config.ignore_case,
            config.line_number,
            before_num,
            after_num,
        ));
    }
    out
}

} // verus!
