//! Console text output, character by character.

use vstd::prelude::*;
use std::io::Write;

verus! {

/// Relies on std::io::Stdout's write_fmt (reached through the `write!`
/// macro): prints one character; output only, nothing is promised of it.
#[verifier::external_body]
fn putchar_raw(c: char) {
    let mut out = std::io::stdout();
    let _ = write!(out, "{}", c);
}

/// Writes the text to standard output, one character at a time.
pub fn stdout_puts(s: &str) {
    for c in iter: s.chars() {
        putchar_raw(c);
    }
}

/// Prints the text, without a trailing newline.
pub fn print(s: &str) {
    stdout_puts(s);
}

} // verus!
