//! Terminal display of the remaining time as large glyph text.
//!
//! A [`Renderer`] holds the standard FIGlet font, loaded once so the
//! countdown loop never re-reads it, and turns a remaining-seconds count
//! into the font's large multi-line rendering of its decimal digits.

use vstd::prelude::*;

use crate::digits::format_decimal;
use crate::digits::is_digit_char;
use crate::digits::spec_decimal;

verus! {

#[verifier::external_type_specification]
#[verifier::external_body]
pub struct ExFIGlet(figlet_rs::FIGlet);

/// The large-glyph rendering of a message by the standard FIGlet font. The
/// font is a fixed resource embedded in the `figlet_rs` crate, so the glyphs
/// depend on the message alone.
pub uninterp spec fn standard_glyphs(text: Seq<char>) -> Seq<char>;

/// True of the characters the standard FIGlet font is required to carry:
/// printable ASCII, space through tilde.
pub open spec fn is_printable_ascii(c: char) -> bool {
    ' ' <= c && c <= '~'
}

/// Renders remaining-time text as large glyphs with the standard FIGlet
/// font.
pub struct Renderer {
    font: figlet_rs::FIGlet,
}

impl Renderer {
    /// Relies on `figlet_rs::FIGlet::standard`, which parses the standard
    /// font embedded in that crate. The resource is fixed and well formed,
    /// so the parse succeeds; that crate's own test suite loads it the same
    /// way.
    #[verifier::external_body]
    fn load_standard() -> (r: Result<Renderer, String>)
        ensures
            r is Ok,
    {
        match figlet_rs::FIGlet::standard() {
            Ok(font) => Ok(Renderer { font }),
            Err(e) => Err(e),
        }
    }

    /// Relies on `figlet_rs::FIGlet::convert` with the standard font — the
    /// only font a `Renderer` can hold, so the glyphs depend on the message
    /// alone — and on `figlet_rs::FIGure::as_str`, which joins the rendered
    /// lines into one string. `convert` returns `None` for an empty message,
    /// and `Some` whenever some character of the message is in the font; the
    /// standard font carries every printable ASCII character.
    #[verifier::external_body]
    fn convert_glyphs(&self, text: &str) -> (r: Option<String>)
        ensures
            text@.len() == 0 ==> r is None,
            text@.len() > 0 && (forall|i: int|
                0 <= i < text@.len() ==> is_printable_ascii(#[trigger] text@[i])) ==> r is Some,
            r is Some ==> r->Some_0@ == standard_glyphs(text@),
    {
        self.font.convert(text).map(|figure| figure.as_str())
    }

    /// Loads a renderer backed by the standard FIGlet font.
    pub fn standard() -> (r: Result<Renderer, String>)
        ensures
            r is Ok,
    {
        Renderer::load_standard()
    }

    /// Renders the remaining-seconds count as large glyph text: the glyphs
    /// of its canonical decimal form.
    pub fn render_seconds(&self, remaining: usize) -> (r: Option<String>)
        ensures
            r is Some,
            r->Some_0@ == standard_glyphs(spec_decimal(remaining as nat)),
    {
        let text = format_decimal(remaining);
        proof {
            crate::digits::lemma_spec_decimal_wf(remaining as nat);
            assert forall|i: int| 0 <= i < text@.len() implies is_printable_ascii(
                #[trigger] text@[i],
            ) by {
                assert(is_digit_char(text@[i]));
            }
        }
        self.convert_glyphs(text.as_str())
    }
}

} // verus!
