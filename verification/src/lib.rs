//! Verified core of a media-centre front end: scene markup, layout, styles,
//! settings, X request queues and playback control arithmetic.

pub mod text;
pub mod numbers;
pub mod strmap;
pub mod settings;
pub mod player;
pub mod markup;
pub mod json;
pub mod xproto;
pub mod display;
pub mod layout;
pub mod scene;
pub mod ntree;
pub mod raster;
pub mod font;
pub mod choices;
pub mod style;
pub mod visual;
pub mod layer;
pub mod anim;
pub mod script;
