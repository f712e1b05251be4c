//! A line-oriented outline renderer for pretty-printed JSON text.
//!
//! The library takes pretty-printed JSON (two-space indentation), a set of
//! collapsed line indices, and produces a fully tokenized, colorized,
//! indentation-aware render plan: one render line per visible source line,
//! with folded blocks replaced by a one-line summary carrying a hidden-line
//! count. The renderer is a pure function of its inputs: it never fails on
//! malformed input and keeps no state between calls.
//!
//! The pipeline runs in one direction: [`text`] splits and trims the raw
//! text, [`token`] scans each line into classified tokens, [`blocks`] pairs
//! every block-opening line with its closing line, [`color`] resolves each
//! token's palette tone, and [`render`] merges it all with the caller's
//! collapsed-set into the final plan. [`laws`] states and proves what holds
//! of the whole: idempotence, the shape of an uncollapsed render, token
//! reconstruction, and fold symmetry.

pub mod blocks;
pub mod color;
pub mod laws;
pub mod numeric;
pub mod render;
pub mod text;
pub mod token;
