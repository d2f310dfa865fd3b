//! A rotor cipher machine: rotors that step on every key press, a
//! reflector and a plugboard, composed into a substitution that undoes
//! itself. Two machines that are set up alike turn each other's ciphertext
//! back into the plaintext, which `machine::lemma_machine_reversible`
//! proves.

pub mod alphabet;
pub mod config;
pub mod error;
pub mod input;
pub mod machine;
pub mod plugboard;
pub mod plugboards;
pub mod reflector;
pub mod reflectors;
pub mod rotor;
pub mod rotors;
pub mod text;

pub use config::{setup_enigma_from_config, MachineConfig, RotorConfig};
pub use error::{ConfigurationError, EncodingError};
pub use input::encrypt_with_enigma;
pub use machine::EnigmaMachine;
pub use plugboard::Plugboard;
pub use reflector::Reflector;
pub use rotor::Rotor;
