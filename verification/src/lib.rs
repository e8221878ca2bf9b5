pub mod bnk;
pub mod frame;
pub mod le;
pub mod org;
pub mod playback;
pub mod sequencer;
pub mod stuff;
pub mod voice;
pub mod wav;
pub mod wavetable;
