//! Setting a machine up from names and settings.

use crate::error::ConfigurationError;
use crate::machine::{rotor_views, EnigmaMachine, MachineView};
use crate::plugboard::{valid_pairs, Plugboard};
use crate::reflectors;
use crate::reflectors::{named_reflector, ukw_b_view};
use crate::rotor::{Rotor, RotorView};
use crate::rotors;
use crate::rotors::{
    named_rotor, rotor_error, type_i_view, type_ii_view, type_iii_view, type_iv_view,
};
use vstd::prelude::*;

verus! {

/// How one rotor is asked for: the name of a preset, the starting position
/// and the ring setting.
pub struct RotorConfig {
    pub type_: String,
    pub position: char,
    pub ring: char,
}

/// A rotor request as plain mathematical values.
pub struct RotorConfigView {
    pub type_: Seq<char>,
    pub position: char,
    pub ring: char,
}

impl View for RotorConfig {
    type V = RotorConfigView;

    open spec fn view(&self) -> RotorConfigView {
        RotorConfigView { type_: self.type_@, position: self.position, ring: self.ring }
    }
}

/// How a machine is asked for: the rotors in assembly order, the name of
/// the reflector, and the plugboard's pairs.
pub struct MachineConfig {
    pub rotors: Vec<RotorConfig>,
    pub reflector: String,
    pub plugboard: Vec<(char, char)>,
}

/// A machine request as plain mathematical values.
pub struct MachineConfigView {
    pub rotors: Seq<RotorConfigView>,
    pub reflector: Seq<char>,
    pub plugboard: Seq<(char, char)>,
}

impl View for MachineConfig {
    type V = MachineConfigView;

    open spec fn view(&self) -> MachineConfigView {
        MachineConfigView {
            rotors: Seq::new(self.rotors@.len(), |i: int| self.rotors@[i]@),
            reflector: self.reflector@,
            plugboard: self.plugboard@,
        }
    }
}

/// The error of the first rotor request that cannot be met, if there is
/// one.
pub open spec fn rotors_error(requests: Seq<RotorConfigView>) -> Option<ConfigurationError>
    decreases requests.len(),
{
    if requests.len() == 0 {
        None
    } else {
        let first = requests[0];
        match rotor_error(first.type_, first.position, first.ring) {
            Some(e) => Some(e),
            None => rotors_error(requests.drop_first()),
        }
    }
}

/// Why a request cannot be met, if that is so. The rotors are looked at
/// first, one after the other; then the assembly, which must not be empty;
/// then the reflector; and last the plugboard.
pub open spec fn config_error(config: MachineConfigView) -> Option<ConfigurationError> {
    if rotors_error(config.rotors).is_some() {
        rotors_error(config.rotors)
    } else if config.rotors.len() == 0 {
        Some(ConfigurationError::NoRotors)
    } else if named_reflector(config.reflector).is_none() {
        Some(ConfigurationError::UnknownReflector)
    } else if !valid_pairs(config.plugboard) {
        Some(ConfigurationError::InvalidPlugboard)
    } else {
        None
    }
}

/// The rotors that a list of requests asks for.
pub open spec fn configured_rotors(requests: Seq<RotorConfigView>) -> Seq<RotorView> {
    Seq::new(
        requests.len(),
        |i: int| named_rotor(requests[i].type_, requests[i].position, requests[i].ring).unwrap(),
    )
}

/// The machine that a request asks for.
pub open spec fn configured_machine(config: MachineConfigView) -> MachineView {
    MachineView {
        rotors: configured_rotors(config.rotors),
        reflector: named_reflector(config.reflector).unwrap(),
        plugboard: config.plugboard,
    }
}

/// The machine that is built when nothing is asked for: rotors I, II, III
/// and IV at positions A, B, C and D with ring setting A, reflector UKW-B,
/// and no plugs.
pub open spec fn default_machine_view() -> MachineView {
    MachineView {
        rotors: seq![
            type_i_view('A', 'A'),
            type_ii_view('B', 'A'),
            type_iii_view('C', 'A'),
            type_iv_view('D', 'A'),
        ],
        reflector: ukw_b_view(),
        plugboard: Seq::empty(),
    }
}

/// Builds the machine that `machine_config` asks for, or the default
/// machine where nothing is asked for.
#[verifier::loop_isolation(false)]
pub fn setup_enigma_from_config(machine_config: Option<MachineConfig>) -> (r: Result<
    EnigmaMachine,
    ConfigurationError,
>)
    ensures
        match machine_config {
            None => r.is_ok() && r.unwrap().wf() && r.unwrap()@ == default_machine_view(),
            Some(config) => match r {
                Ok(m) => config_error(config@).is_none() && m.wf() && m@ == configured_machine(
                    config@,
                ),
                Err(e) => config_error(config@) == Some(e),
            },
        },
{
    match machine_config {
        None => {
            let mut rotor_list: Vec<Rotor> = Vec::new();
            rotor_list.push(rotors::type_i('A', 'A'));
            rotor_list.push(rotors::type_ii('B', 'A'));
            rotor_list.push(rotors::type_iii('C', 'A'));
            rotor_list.push(rotors::type_iv('D', 'A'));
            let reflector = reflectors::ukw_b();
            match Plugboard::new(Vec::new()) {
                Ok(plugboard) => {
                    proof {
                        assert(rotor_views(rotor_list@) =~= default_machine_view().rotors);
                        assert(plugboard@ =~= Seq::<(char, char)>::empty());
                    }
                    Ok(EnigmaMachine::new(rotor_list, reflector, plugboard))
                },
                Err(err) => Err(err),
            }
        },
        Some(config) => {
            let ghost requests = config@.rotors;
            let mut rotor_list: Vec<Rotor> = Vec::new();
            let n = config.rotors.len();
            let mut i: usize = 0;
            proof {
                assert(requests.skip(0) =~= requests);
            }
            while i < n
                invariant
                    n == config.rotors.len(),
                    requests == config@.rotors,
                    i <= n,
                    rotor_list.len() == i,
                    rotors_error(requests) == rotors_error(requests.skip(i as int)),
                    forall|j: int|
                        0 <= j < i ==> (#[trigger] rotor_list[j]).wf() && Some(rotor_list[j]@)
                            == named_rotor(
                            requests[j].type_,
                            requests[j].position,
                            requests[j].ring,
                        ),
                decreases n - i,
            {
                let request = &config.rotors[i];
                proof {
                    assert(requests.skip(i as int)[0] == requests[i as int]);
                    assert(requests.skip(i as int).drop_first() =~= requests.skip(i + 1));
                    assert(requests[i as int] == request@);
                }
                match rotors::from_name(request.type_.as_str(), request.position, request.ring) {
                    Ok(rotor) => {
                        rotor_list.push(rotor);
                    },
                    Err(e) => {
                        return Err(e);
                    },
                }
                i += 1;
            }
            proof {
                assert(requests.skip(n as int).len() == 0);
            }
            if n == 0 {
                return Err(ConfigurationError::NoRotors);
            }
            let reflector = match reflectors::from_name(config.reflector.as_str()) {
                Ok(reflector) => reflector,
                Err(e) => {
                    return Err(e);
                },
            };
            let plugboard = match Plugboard::new(config.plugboard) {
                Ok(plugboard) => plugboard,
                Err(e) => {
                    return Err(e);
                },
            };
            proof {
                assert(rotor_views(rotor_list@) =~= configured_rotors(requests));
            }
            Ok(EnigmaMachine::new(rotor_list, reflector, plugboard))
        },
    }
}

} // verus!
