//! A node graph that computes with scalars, vectors and texts, and the rules of
//! the application around it.
//!
//! The graph: [`value`] says what travels along its edges, [`template`] which
//! nodes there are, [`graph`] what `egui_node_graph2` does, [`meaning`] what
//! evaluating a node means, [`arith`] how arithmetic is recorded, [`cache`] what
//! was computed so far, [`eval`] the evaluation, [`laws`] what holds of it,
//! [`kinds`] what each kind of node does, [`constancy`] what changes nothing of
//! it, and [`editor`] what the user sees of it.
//!
//! The application: [`transcript`] of what was said, [`capture`] of sound and
//! [`playback`] of it, [`chat`] with a language model, [`debounce`] of typing,
//! [`http`] responses, and [`setting`]s.
pub mod arith;
pub mod cache;
pub mod capture;
pub mod chat;
pub mod constancy;
pub mod debounce;
pub mod editor;
pub mod eval;
pub mod graph;
pub mod http;
pub mod kinds;
pub mod laws;
pub mod meaning;
pub mod playback;
pub mod setting;
pub mod template;
pub mod transcript;
pub mod value;
