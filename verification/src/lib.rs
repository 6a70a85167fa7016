//! A fine-grained reactive engine: tracked state cells, derived signals,
//! reactions that re-run when what they read has been written, owner-scoped
//! callbacks, and a small view layer (conditional branches and fragments)
//! that builds and razes subtrees of a node store.
//!
//! Everything hangs on one counter. Each write to a slot of the store
//! advances the counter and stamps the slot with the new tick. A reaction
//! runs against a tracking scope that records what it reads; its scope is
//! stale, and the reaction due again, as soon as one of those slots bears a
//! tick greater than the scope's baseline.

pub mod callback;
pub mod cond;
pub mod context;
pub mod derived;
pub mod engine;
pub mod error;
pub mod fragment;
pub mod gradient;
pub mod host;
pub mod mutable;
pub mod node_span;
pub mod reaction;
pub mod store;
pub mod style;
pub mod text_styles;
pub mod tracking_scope;
pub mod ui_builder;
pub mod view;

pub use callback::{AnyCallback, Callback, CallbackRegistry, Commands, Procedure, RunCallback};
pub use cond::{cond, Cond, CondState};
pub use context::{Ecx, Rcx};
pub use derived::{create_derived, Derived, DerivedFn, FlagTest, ReadDerived};
pub use engine::Reactor;
pub use error::ReactorError;
pub use fragment::{ChildView, Fragment};
pub use gradient::ColorGradient;
pub use host::SceneMirror;
pub use mutable::{create_mutable, Mutable};
pub use node_span::NodeSpan;
pub use reaction::{EffectFn, EffectReaction, Reaction, ReactionCell, ReactionTable, ReactionTarget};
pub use style::{StyleBuilder, StyleBuilderZIndex, StyleCommands, ZIndex, ZIndexParam};
pub use text_styles::{compute_inherited_style, InheritableFontStyles, TextStyle};
pub use tracking_scope::{Dependency, NodeId, TrackingScope, TypeTag};
pub use ui_builder::UiBuilder;
pub use view::ReactiveView;
pub use store::Store;
