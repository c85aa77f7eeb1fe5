//! Sections of a manual page, as ROFF source text.

use clap_mangen::roff::{roman, Roff};
use vstd::prelude::*;

verus! {

/// The ROFF macro that starts a section of a manual page.
pub const SECTION_HEADING: &'static str = "SH";

/// The source text that the `roff` crate renders for a document of two
/// lines: a control line that calls the macro `name` with the one argument
/// `arg`, and a text line that holds `text` in the roman font.
pub uninterp spec fn roff_rendering(name: Seq<char>, arg: Seq<char>, text: Seq<char>) -> Seq<char>;

/// Builds that document with `Roff::control`, `Roff::text` and `roman`, and
/// renders it with `Roff::render`. The contract gives the rendering its
/// name and claims nothing else of it: how `roff` quotes the argument and
/// escapes the text is not proved here.
#[verifier::external_body]
fn render_control_and_text(name: &str, arg: &str, text: &str) -> (rendered: String)
    ensures
        rendered@ == roff_rendering(name@, arg@, text@),
{
    let mut roff = Roff::default();
    roff.control(name, [arg]);
    roff.text([roman(text)]);
    roff.render()
}

/// The source text of a section of a manual page that is headed `section`
/// and holds `text`.
pub fn custom_man_section(section: &str, text: &str) -> (rendered: String)
    ensures
        rendered@ == roff_rendering(SECTION_HEADING@, section@, text@),
{
    render_control_and_text(SECTION_HEADING, section, text)
}

} // verus!
