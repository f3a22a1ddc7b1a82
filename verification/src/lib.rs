//! Decoding of HP-IL physical-layer signalling into framed protocol
//! messages, and a model of a bus device's part in the daisy-chain
//! addressing scheme.

pub mod hp71bus;
pub mod hpil;
