//! Prediction acceleration and where predictions run.

use vstd::prelude::*;
use crate::models::owned;
use crate::text::{starts_with, str_eq, str_starts_with};

verus! {

/// Prediction acceleration.
#[derive(Debug, Clone, PartialEq, Eq)]
pub enum Acceleration {
    /// Run locally with automatic hardware selection.
    LocalAuto,
    /// Run locally on the CPU.
    LocalCpu,
    /// Run locally on the GPU.
    LocalGpu,
    /// Run locally on the NPU.
    LocalNpu,
    /// Run remotely with automatic hardware selection.
    RemoteAuto,
    /// Run remotely on the CPU.
    RemoteCpu,
    /// Run remotely on an NVIDIA A10 GPU.
    RemoteA10,
    /// Run remotely on an NVIDIA L40S GPU.
    RemoteL40S,
    /// Run remotely on an NVIDIA A100 GPU.
    RemoteA100,
    /// Run remotely on an NVIDIA H200 GPU.
    RemoteH200,
    /// Run remotely on an NVIDIA B200 GPU.
    RemoteB200,
    /// Run remotely on an AMD MI350X GPU.
    RemoteMI350X,
    /// Run remotely on an AMD MI355X GPU.
    RemoteMI355X,
    /// Adaptive acceleration from an opaque string identifier.
    Adaptive(String),
}

/// The native runtime's acceleration code: local CPU, GPU and NPU have
/// their own codes; every other acceleration asks for automatic selection.
pub open spec fn acceleration_code(acceleration: Acceleration) -> int {
    match acceleration {
        Acceleration::LocalCpu => 1,
        Acceleration::LocalGpu => 2,
        Acceleration::LocalNpu => 4,
        _ => 0,
    }
}

/// Whether a prediction with this acceleration runs on this machine: no
/// acceleration, a local one, or an adaptive one named `local_...`.
pub open spec fn runs_locally(acceleration: Option<Acceleration>) -> bool {
    match acceleration {
        None => true,
        Some(Acceleration::LocalAuto) | Some(Acceleration::LocalCpu) | Some(
            Acceleration::LocalGpu,
        ) | Some(Acceleration::LocalNpu) => true,
        Some(Acceleration::Adaptive(value)) => starts_with(value@, "local_"@),
        _ => false,
    }
}

/// The accelerations that run remotely: every remote device (each
/// documented as "Run remotely on ..."), and adaptive accelerations named
/// `remote_...`.
pub open spec fn remote_embedding_acceleration(acceleration: Acceleration) -> bool {
    match acceleration {
        Acceleration::RemoteAuto | Acceleration::RemoteCpu | Acceleration::RemoteA10
        | Acceleration::RemoteL40S | Acceleration::RemoteA100 | Acceleration::RemoteH200
        | Acceleration::RemoteB200 | Acceleration::RemoteMI350X | Acceleration::RemoteMI355X => true,
        Acceleration::Adaptive(value) => starts_with(value@, "remote_"@),
        _ => false,
    }
}

/// The native runtime's code for `acceleration`.
pub fn acceleration_to_c(acceleration: &Acceleration) -> (code: i32)
    ensures
        code == acceleration_code(*acceleration),
{
    match acceleration {
        Acceleration::LocalAuto => 0,
        Acceleration::LocalCpu => 1,
        Acceleration::LocalGpu => 2,
        Acceleration::LocalNpu => 4,
        _ => 0,
    }
}

/// Whether a prediction with this acceleration runs on this machine.
pub fn is_local_acceleration(acceleration: Option<&Acceleration>) -> (r: bool)
    ensures
        r == runs_locally(
            match acceleration {
                Some(a) => Some(*a),
                None => None,
            },
        ),
{
    match acceleration {
        Some(Acceleration::LocalAuto) | Some(Acceleration::LocalCpu) | Some(
            Acceleration::LocalGpu,
        ) | Some(Acceleration::LocalNpu) => true,
        Some(Acceleration::Adaptive(value)) => str_starts_with(value.as_str(), "local_"),
        None => true,
        _ => false,
    }
}

/// Whether a prediction with this acceleration runs remotely; the
/// embeddings client sends such predictions to the remote endpoint.
pub fn is_remote(acceleration: &Acceleration) -> (r: bool)
    ensures
        r == remote_embedding_acceleration(*acceleration),
{
    match acceleration {
        Acceleration::RemoteAuto | Acceleration::RemoteCpu | Acceleration::RemoteA10
        | Acceleration::RemoteL40S | Acceleration::RemoteA100 | Acceleration::RemoteH200
        | Acceleration::RemoteB200 | Acceleration::RemoteMI350X | Acceleration::RemoteMI355X => true,
        Acceleration::Adaptive(value) => str_starts_with(value.as_str(), "remote_"),
        _ => false,
    }
}

/// Whether `PredictionService::create` runs a prediction on this machine:
/// without inputs (a raw prediction), with an empty input map (resources
/// only), or with a local acceleration; otherwise it runs remotely.
pub fn creates_locally(inputs: Option<usize>, acceleration: Option<&Acceleration>) -> (r: bool)
    ensures
        r == (inputs is None || inputs == Some(0usize) || runs_locally(
            match acceleration {
                Some(a) => Some(*a),
                None => None,
            },
        )),
{
    match inputs {
        None => true,
        Some(0) => true,
        Some(_) => is_local_acceleration(acceleration),
    }
}


/// The name of an acceleration on the wire; an adaptive acceleration is
/// its own name.
pub open spec fn acceleration_name(a: Acceleration) -> Seq<char> {
    match a {
        Acceleration::LocalAuto => "local_auto"@,
        Acceleration::LocalCpu => "local_cpu"@,
        Acceleration::LocalGpu => "local_gpu"@,
        Acceleration::LocalNpu => "local_npu"@,
        Acceleration::RemoteAuto => "remote_auto"@,
        Acceleration::RemoteCpu => "remote_cpu"@,
        Acceleration::RemoteA10 => "remote_a10"@,
        Acceleration::RemoteL40S => "remote_l40s"@,
        Acceleration::RemoteA100 => "remote_a100"@,
        Acceleration::RemoteH200 => "remote_h200"@,
        Acceleration::RemoteB200 => "remote_b200"@,
        Acceleration::RemoteMI350X => "remote_mi350x"@,
        Acceleration::RemoteMI355X => "remote_mi355x"@,
        Acceleration::Adaptive(s) => s@,
    }
}

/// The named acceleration that `name` denotes, if any.
pub open spec fn known_acceleration(name: Seq<char>) -> Option<Acceleration> {
    if name == "local_auto"@ {
        Some(Acceleration::LocalAuto)
    } else if name == "local_cpu"@ {
        Some(Acceleration::LocalCpu)
    } else if name == "local_gpu"@ {
        Some(Acceleration::LocalGpu)
    } else if name == "local_npu"@ {
        Some(Acceleration::LocalNpu)
    } else if name == "remote_auto"@ {
        Some(Acceleration::RemoteAuto)
    } else if name == "remote_cpu"@ {
        Some(Acceleration::RemoteCpu)
    } else if name == "remote_a10"@ {
        Some(Acceleration::RemoteA10)
    } else if name == "remote_l40s"@ {
        Some(Acceleration::RemoteL40S)
    } else if name == "remote_a100"@ {
        Some(Acceleration::RemoteA100)
    } else if name == "remote_h200"@ {
        Some(Acceleration::RemoteH200)
    } else if name == "remote_b200"@ {
        Some(Acceleration::RemoteB200)
    } else if name == "remote_mi350x"@ {
        Some(Acceleration::RemoteMI350X)
    } else if name == "remote_mi355x"@ {
        Some(Acceleration::RemoteMI355X)
    } else {
        None
    }
}

impl Acceleration {
    /// The acceleration that `name` denotes: a named acceleration, else an
    /// adaptive one with that name.
    pub fn from_name(name: &str) -> (r: Acceleration)
        ensures
            match known_acceleration(name@) {
                Some(a) => r == a,
                None => r matches Acceleration::Adaptive(s) && s@ == name@,
            },
    {
        if str_eq(name, "local_auto") {
            Acceleration::LocalAuto
        } else if str_eq(name, "local_cpu") {
            Acceleration::LocalCpu
        } else if str_eq(name, "local_gpu") {
            Acceleration::LocalGpu
        } else if str_eq(name, "local_npu") {
            Acceleration::LocalNpu
        } else if str_eq(name, "remote_auto") {
            Acceleration::RemoteAuto
        } else if str_eq(name, "remote_cpu") {
            Acceleration::RemoteCpu
        } else if str_eq(name, "remote_a10") {
            Acceleration::RemoteA10
        } else if str_eq(name, "remote_l40s") {
            Acceleration::RemoteL40S
        } else if str_eq(name, "remote_a100") {
            Acceleration::RemoteA100
        } else if str_eq(name, "remote_h200") {
            Acceleration::RemoteH200
        } else if str_eq(name, "remote_b200") {
            Acceleration::RemoteB200
        } else if str_eq(name, "remote_mi350x") {
            Acceleration::RemoteMI350X
        } else if str_eq(name, "remote_mi355x") {
            Acceleration::RemoteMI355X
        } else {
            Acceleration::Adaptive(owned(name))
        }
    }

    /// The name of the acceleration on the wire.
    pub fn name(&self) -> (r: String)
        ensures
            r@ == acceleration_name(*self),
    {
        match self {
            Acceleration::LocalAuto => owned("local_auto"),
            Acceleration::LocalCpu => owned("local_cpu"),
            Acceleration::LocalGpu => owned("local_gpu"),
            Acceleration::LocalNpu => owned("local_npu"),
            Acceleration::RemoteAuto => owned("remote_auto"),
            Acceleration::RemoteCpu => owned("remote_cpu"),
            Acceleration::RemoteA10 => owned("remote_a10"),
            Acceleration::RemoteL40S => owned("remote_l40s"),
            Acceleration::RemoteA100 => owned("remote_a100"),
            Acceleration::RemoteH200 => owned("remote_h200"),
            Acceleration::RemoteB200 => owned("remote_b200"),
            Acceleration::RemoteMI350X => owned("remote_mi350x"),
            Acceleration::RemoteMI355X => owned("remote_mi355x"),
            Acceleration::Adaptive(s) => s.clone(),
        }
    }
}

/// Reading a name back gives the name: the name of the acceleration that
/// any text denotes is that text.
pub proof fn lemma_name_round_trip(name: Seq<char>)
    ensures
        match known_acceleration(name) {
            Some(a) => acceleration_name(a) == name,
            None => true,
        },
{
}

/// Every named acceleration is read back from its name.
pub proof fn lemma_known_names_read_back(a: Acceleration)
    requires
        !(a is Adaptive),
    ensures
        known_acceleration(acceleration_name(a)) == Some(a),
{
    reveal_strlit("local_auto");
    reveal_strlit("local_cpu");
    reveal_strlit("local_gpu");
    reveal_strlit("local_npu");
    reveal_strlit("remote_auto");
    reveal_strlit("remote_cpu");
    reveal_strlit("remote_a10");
    reveal_strlit("remote_l40s");
    reveal_strlit("remote_a100");
    reveal_strlit("remote_h200");
    reveal_strlit("remote_b200");
    reveal_strlit("remote_mi350x");
    reveal_strlit("remote_mi355x");
    assert("local_cpu"@.len() != "local_auto"@.len());
    assert("local_gpu"@.len() != "local_auto"@.len());
    assert("local_gpu"@[6] != "local_cpu"@[6]);
    assert("local_npu"@.len() != "local_auto"@.len());
    assert("local_npu"@[6] != "local_cpu"@[6]);
    assert("local_npu"@[6] != "local_gpu"@[6]);
    assert("remote_auto"@.len() != "local_auto"@.len());
    assert("remote_auto"@.len() != "local_cpu"@.len());
    assert("remote_auto"@.len() != "local_gpu"@.len());
    assert("remote_auto"@.len() != "local_npu"@.len());
    assert("remote_cpu"@[0] != "local_auto"@[0]);
    assert("remote_cpu"@.len() != "local_cpu"@.len());
    assert("remote_cpu"@.len() != "local_gpu"@.len());
    assert("remote_cpu"@.len() != "local_npu"@.len());
    assert("remote_cpu"@.len() != "remote_auto"@.len());
    assert("remote_a10"@[0] != "local_auto"@[0]);
    assert("remote_a10"@.len() != "local_cpu"@.len());
    assert("remote_a10"@.len() != "local_gpu"@.len());
    assert("remote_a10"@.len() != "local_npu"@.len());
    assert("remote_a10"@.len() != "remote_auto"@.len());
    assert("remote_a10"@[7] != "remote_cpu"@[7]);
    assert("remote_l40s"@.len() != "local_auto"@.len());
    assert("remote_l40s"@.len() != "local_cpu"@.len());
    assert("remote_l40s"@.len() != "local_gpu"@.len());
    assert("remote_l40s"@.len() != "local_npu"@.len());
    assert("remote_l40s"@[7] != "remote_auto"@[7]);
    assert("remote_l40s"@.len() != "remote_cpu"@.len());
    assert("remote_l40s"@.len() != "remote_a10"@.len());
    assert("remote_a100"@.len() != "local_auto"@.len());
    assert("remote_a100"@.len() != "local_cpu"@.len());
    assert("remote_a100"@.len() != "local_gpu"@.len());
    assert("remote_a100"@.len() != "local_npu"@.len());
    assert("remote_a100"@[8] != "remote_auto"@[8]);
    assert("remote_a100"@.len() != "remote_cpu"@.len());
    assert("remote_a100"@.len() != "remote_a10"@.len());
    assert("remote_a100"@[7] != "remote_l40s"@[7]);
    assert("remote_h200"@.len() != "local_auto"@.len());
    assert("remote_h200"@.len() != "local_cpu"@.len());
    assert("remote_h200"@.len() != "local_gpu"@.len());
    assert("remote_h200"@.len() != "local_npu"@.len());
    assert("remote_h200"@[7] != "remote_auto"@[7]);
    assert("remote_h200"@.len() != "remote_cpu"@.len());
    assert("remote_h200"@.len() != "remote_a10"@.len());
    assert("remote_h200"@[7] != "remote_l40s"@[7]);
    assert("remote_h200"@[7] != "remote_a100"@[7]);
    assert("remote_b200"@.len() != "local_auto"@.len());
    assert("remote_b200"@.len() != "local_cpu"@.len());
    assert("remote_b200"@.len() != "local_gpu"@.len());
    assert("remote_b200"@.len() != "local_npu"@.len());
    assert("remote_b200"@[7] != "remote_auto"@[7]);
    assert("remote_b200"@.len() != "remote_cpu"@.len());
    assert("remote_b200"@.len() != "remote_a10"@.len());
    assert("remote_b200"@[7] != "remote_l40s"@[7]);
    assert("remote_b200"@[7] != "remote_a100"@[7]);
    assert("remote_b200"@[7] != "remote_h200"@[7]);
    assert("remote_mi350x"@.len() != "local_auto"@.len());
    assert("remote_mi350x"@.len() != "local_cpu"@.len());
    assert("remote_mi350x"@.len() != "local_gpu"@.len());
    assert("remote_mi350x"@.len() != "local_npu"@.len());
    assert("remote_mi350x"@.len() != "remote_auto"@.len());
    assert("remote_mi350x"@.len() != "remote_cpu"@.len());
    assert("remote_mi350x"@.len() != "remote_a10"@.len());
    assert("remote_mi350x"@.len() != "remote_l40s"@.len());
    assert("remote_mi350x"@.len() != "remote_a100"@.len());
    assert("remote_mi350x"@.len() != "remote_h200"@.len());
    assert("remote_mi350x"@.len() != "remote_b200"@.len());
    assert("remote_mi355x"@.len() != "local_auto"@.len());
    assert("remote_mi355x"@.len() != "local_cpu"@.len());
    assert("remote_mi355x"@.len() != "local_gpu"@.len());
    assert("remote_mi355x"@.len() != "local_npu"@.len());
    assert("remote_mi355x"@.len() != "remote_auto"@.len());
    assert("remote_mi355x"@.len() != "remote_cpu"@.len());
    assert("remote_mi355x"@.len() != "remote_a10"@.len());
    assert("remote_mi355x"@.len() != "remote_l40s"@.len());
    assert("remote_mi355x"@.len() != "remote_a100"@.len());
    assert("remote_mi355x"@.len() != "remote_h200"@.len());
    assert("remote_mi355x"@.len() != "remote_b200"@.len());
    assert("remote_mi355x"@[11] != "remote_mi350x"@[11]);
}
} // verus!
