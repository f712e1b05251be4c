//! The color resolver: a pure lookup from a classified token to the palette
//! tone that displays it. Themes expose a small fixed palette (primary,
//! secondary, background and success groups at base, weak and strong
//! intensities); the resolver names the slot and leaves the concrete color
//! value to the presentation layer, so alternate color schemes can be
//! substituted without touching tokenizing or fold logic.

use crate::numeric::{float_literal_chars, is_float_literal};
use crate::text::{spec_trim, trim_chars};
use vstd::prelude::*;

verus! {

/// A slot of the theme palette. The name gives the palette group and the
/// intensity whose color the presentation layer should use; a group's `Text`
/// slot is the matching foreground color.
#[derive(Clone, Copy, Debug, PartialEq, Eq, Structural)]
pub enum Tone {
    /// Secondary group, base intensity, foreground: object keys.
    SecondaryBaseText,
    /// Primary group, strong intensity: string values.
    PrimaryStrongColor,
    /// Background group, weak intensity: braces and brackets.
    BackgroundWeakColor,
    /// Secondary group, base intensity: the colon separator.
    SecondaryBaseColor,
    /// Background group, strong intensity: the comma separator.
    BackgroundStrongColor,
    /// Success group, weak intensity: numeric literals.
    SuccessWeakColor,
    /// Primary group, weak intensity: any other bare token.
    PrimaryWeakColor,
}

/// The tone of a token, in fixed priority order: string contents win, then
/// structural punctuation by its character, then the numeric test on the
/// trimmed text, and a default for everything else.
pub open spec fn spec_color_for_token(text: Seq<char>, is_key: bool, in_string: bool) -> Tone {
    if in_string {
        if is_key {
            Tone::SecondaryBaseText
        } else {
            Tone::PrimaryStrongColor
        }
    } else if text.len() == 1 && (text[0] == '{' || text[0] == '}' || text[0] == '[' || text[0]
        == ']') {
        Tone::BackgroundWeakColor
    } else if text.len() == 1 && text[0] == ':' {
        Tone::SecondaryBaseColor
    } else if text.len() == 1 && text[0] == ',' {
        Tone::BackgroundStrongColor
    } else if is_float_literal(spec_trim(text)) {
        Tone::SuccessWeakColor
    } else {
        Tone::PrimaryWeakColor
    }
}

/// Resolve the display tone of one token. `in_string` says the token text was
/// string contents; `is_key` marks the key position and matters only inside a
/// string.
pub fn color_for_token(token: &Vec<char>, is_key: bool, in_string: bool) -> (r: Tone)
    ensures
        r == spec_color_for_token(token@, is_key, in_string),
{
    if in_string {
        if is_key {
            Tone::SecondaryBaseText
        } else {
            Tone::PrimaryStrongColor
        }
    } else if token.len() == 1 && (token[0] == '{' || token[0] == '}' || token[0] == '[' || token[0]
        == ']') {
        Tone::BackgroundWeakColor
    } else if token.len() == 1 && token[0] == ':' {
        Tone::SecondaryBaseColor
    } else if token.len() == 1 && token[0] == ',' {
        Tone::BackgroundStrongColor
    } else {
        let trimmed = trim_chars(token);
        if float_literal_chars(&trimmed) {
            Tone::SuccessWeakColor
        } else {
            Tone::PrimaryWeakColor
        }
    }
}

} // verus!
