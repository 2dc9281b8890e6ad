//! Extraction of dictionary headwords from XML article files, and the
//! assembly of the extracted entries into one flat text dictionary.
pub mod laws;
pub mod pipeline;
pub mod progress;
pub mod scan;
pub mod text;
pub mod xml;
