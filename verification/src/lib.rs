//! A verified box-model layout engine: it turns a styled document tree into a
//! tree of positioned, sized boxes ready for painting.
//!
//! The crate covers the geometry of the CSS2.1-style visual formatting model:
//! box-tree construction from styled nodes, block / float / inline-block
//! layout (width resolution, auto-margin distribution, vertical stacking),
//! float bookkeeping, and the inline formatting engine that reflows runs of
//! inline content into baseline-aligned line boxes.
//!
//! All geometry is carried in a fixed-point sub-pixel integer unit; text
//! measurement uses a deterministic font-metrics model, so a whole layout
//! pass is a pure function of its inputs.

pub mod geometry;
pub mod font;
pub mod style;
pub mod floats;
pub mod layout;
pub mod inline;
