//! Rendering of notification text: the buffer-rendering rule shared by the
//! periodic status messages and the final message, and the human-readable
//! elapsed-time label.

use vstd::prelude::*;

verus! {

/// The buffer-rendering rule: an empty buffer is reported with a literal
/// suffix, a nonempty one as a fenced block holding the contents verbatim.
pub open spec fn render_suffix(output: Seq<char>) -> Seq<char> {
    if output.len() == 0 {
        "; no new output"@
    } else {
        "\n```\n"@ + output + "```\n"@
    }
}

/// Append the buffer-rendering rule for `output` to `s`.
pub fn push_output(s: &mut String, output: &str)
    ensures
        final(s)@ == old(s)@ + render_suffix(output@),
{
    if output.is_empty() {
        s.append("; no new output");
    } else {
        s.append("\n```\n");
        s.append(output);
        s.append("```\n");
        proof {
            assert(final(s)@ =~= old(s)@ + render_suffix(output@));
        }
    }
}

/// What humantime renders a whole number of seconds as; the result depends on
/// the seconds alone.
pub uninterp spec fn human_duration(secs: u64) -> Seq<char>;

/// Relies on humantime::format_duration: a pure rendering of a duration,
/// determined by the duration's value alone.
#[verifier::external_body]
pub(crate) fn human_elapsed(secs: u64) -> (r: String)
    ensures
        r@ == human_duration(secs),
{
    humantime::format_duration(std::time::Duration::from_secs(secs)).to_string()
}

/// The status text a periodic tick produces: the elapsed-time label, the
/// literal " elapsed", then the buffer-rendering rule for `output`.
pub fn tick_message(elapsed: &str, output: &str) -> (r: String)
    ensures
        r@ == elapsed@ + " elapsed"@ + render_suffix(output@),
{
    let mut s = elapsed.to_owned();
    s.append(" elapsed");
    push_output(&mut s, output);
    proof {
        assert(s@ =~= elapsed@ + " elapsed"@ + render_suffix(output@));
    }
    s
}

/// The final message the orchestrator sends once the monitored command's
/// output has ended.
pub fn exit_message(output: &str) -> (r: String)
    ensures
        r@ == "Exited"@ + render_suffix(output@),
{
    let mut s = String::new();
    s.append("Exited");
    push_output(&mut s, output);
    proof {
        assert(s@ =~= "Exited"@ + render_suffix(output@));
    }
    s
}

} // verus!
