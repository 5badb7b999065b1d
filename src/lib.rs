//! A speech engine core that sings Japanese text with UTAU voicebanks:
//! note names, oto timing records, voicebank metadata, alias resolution
//! and the speaker registry.
pub mod text;
pub mod midi;
pub mod settings;
pub mod oto;
pub mod voicebank;
pub mod encoder;
pub mod api;
pub mod speakers;
pub mod page;
pub mod assets;
pub mod icons;
pub mod frq;
