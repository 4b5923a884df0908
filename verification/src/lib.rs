//! Verified building blocks of a zero-knowledge virtual machine: the Eidos hash framing,
//! chiplet column layouts and selector constraints, the BlakeG compression-chiplet lookup
//! plan and trace helpers, host event plumbing, and the MASM analyses: a fixpoint kernel, the unconstrained-advice
//! transfer and the signature-mismatch check.
pub mod field;
pub mod blakeg;
pub mod eidos;
pub mod columns;
pub mod constraint_builder;
pub mod chiplet_selectors;
pub mod blakeg_layout;
pub mod blakeg_lookup;
pub mod execution;
pub mod events;
pub mod abstract_interp;
pub mod debug_format;
pub mod debug_printer;
pub mod span;
pub mod signature_mismatch;
pub mod advice;
pub mod lint;
pub mod lookup_validation;
pub mod blakeg_trace;
pub mod blakeg_fused;
pub mod blakeg_footer;
pub mod blakeg_views;
pub mod chiplet_blakeg;
pub mod blakeg_felt_trace;
pub mod blakeg_messages;
