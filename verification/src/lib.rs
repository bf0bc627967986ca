//! Verified core of a 4D hypercube demo: the tesseract mesh topology, the
//! scene schedule, the audio sample queue and the mountain range layout.

pub mod tesseract;
pub mod schedule;
pub mod audio;
pub mod mountains;
