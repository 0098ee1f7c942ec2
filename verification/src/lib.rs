//! A minimal dense N-dimensional array (tensor) core.
//!
//! Data lives in a flat buffer; a [`Shape`] describes the logical
//! dimensions and their row-major strides; a [`Tensor`] combines the two
//! and offers shape-aware indexing, element-wise arithmetic, matrix
//! multiplication and a structured textual rendering.
//!
//! The element type is generic. Element-level operations (addition,
//! multiplication, formatting of a single element) are supplied by the
//! caller as closures, and every contract relates the produced buffers to
//! those closures position by position.

mod error;
mod layout;
pub mod render;
mod shape;
mod storage;
mod tensor;

pub use error::TensorError;
pub use layout::dims_ok;
pub use layout::flat_of;
pub use layout::lemma_flat_bound;
pub use layout::lemma_flat_injective;
pub use layout::lemma_flat_respects_lex_order;
pub use layout::lemma_product_empty;
pub use layout::lemma_set_is_local;
pub use layout::lemma_unflatten_flat;
pub use layout::lemma_unflatten_props;
pub use layout::lex_less;
pub use layout::product;
pub use layout::unflatten;
pub use layout::valid_index;
pub use render::display_text;
pub use shape::shape_fits;
pub use shape::Shape;
pub use storage::Storage;
pub use tensor::col_seq;
pub use tensor::dot_rel;
pub use tensor::lemma_dot_rel_functional;
pub use tensor::lemma_involution_pointwise;
pub use tensor::lemma_right_identity_pointwise;
pub use tensor::row_seq;
pub use tensor::Tensor;
