//! Dual-stream speech capture core: format normalisation, energy-based voice
//! activity segmentation, PCM/base64 framing of utterances, and the shared
//! capture state that the audio callbacks feed and a consumer drains.
pub mod capture;
pub mod devices;
pub mod normalize;
pub mod pcm;
pub mod vad;
