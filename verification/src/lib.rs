pub mod song;
pub mod synth;
pub mod timbre;
pub mod amplitude;
pub mod mix;
pub mod pairing;
pub mod timing;
