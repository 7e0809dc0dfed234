//! Devices and weight formats: what can be named, and what runs where.
use crate::error::{Error, Failure, Result};
use crate::text;
use vstd::prelude::*;
use vstd::string::*;

verus! {

/// Which device to run on.
#[derive(Clone, Copy, Debug, PartialEq, Eq, Structural)]
pub enum DeviceKind {
    /// The most capable compiled-in backend: CUDA, then Vulkan, then Metal, then the CPU.
    Auto,
    Cpu,
    Cuda,
    Vulkan,
    Metal,
}

/// The backends a build was compiled with, besides the CPU.
#[derive(Clone, Copy, Debug, PartialEq, Eq, Structural)]
pub struct Backends {
    pub cuda: bool,
    pub vulkan: bool,
    pub metal: bool,
}

/// Weight format for the flow-LM transformer linears. Quantization is CPU-only.
#[derive(Clone, Copy, Debug, PartialEq, Eq, Structural)]
pub enum Quant {
    F32,
    Q80,
    Q81,
    Q8k,
    Q6k,
    Q50,
    Q51,
    Q5k,
    Q40,
    Q41,
    Q4k,
}

impl Default for DeviceKind {
    fn default() -> (r: Self)
        ensures
            r == DeviceKind::Auto,
    {
        DeviceKind::Auto
    }
}

impl Default for Quant {
    fn default() -> (r: Self)
        ensures
            r == Quant::F32,
    {
        Quant::F32
    }
}

/// The device that a name stands for.
pub open spec fn device_of(name: Seq<char>) -> Option<DeviceKind> {
    if name == "auto"@ {
        Some(DeviceKind::Auto)
    } else if name == "cpu"@ {
        Some(DeviceKind::Cpu)
    } else if name == "cuda"@ {
        Some(DeviceKind::Cuda)
    } else if name == "vulkan"@ {
        Some(DeviceKind::Vulkan)
    } else if name == "metal"@ {
        Some(DeviceKind::Metal)
    } else {
        None
    }
}

impl Backends {
    /// The most capable backend of the build.
    pub open spec fn best(self) -> DeviceKind {
        if self.cuda {
            DeviceKind::Cuda
        } else if self.vulkan {
            DeviceKind::Vulkan
        } else if self.metal {
            DeviceKind::Metal
        } else {
            DeviceKind::Cpu
        }
    }

    /// Whether the build can run on `device`.
    pub open spec fn has(self, device: DeviceKind) -> bool {
        match device {
            DeviceKind::Auto | DeviceKind::Cpu => true,
            DeviceKind::Cuda => self.cuda,
            DeviceKind::Vulkan => self.vulkan,
            DeviceKind::Metal => self.metal,
        }
    }
}

impl DeviceKind {
    /// The device this stands for in a build: itself, unless it leaves the choice open.
    pub open spec fn resolved(self, built: Backends) -> DeviceKind {
        if self == DeviceKind::Auto {
            built.best()
        } else {
            self
        }
    }

    /// The name a device is shown under.
    pub open spec fn label(self) -> Seq<char> {
        match self {
            DeviceKind::Auto => "Auto"@,
            DeviceKind::Cpu => "Cpu"@,
            DeviceKind::Cuda => "Cuda"@,
            DeviceKind::Vulkan => "Vulkan"@,
            DeviceKind::Metal => "Metal"@,
        }
    }

    pub fn parse(name: &str) -> (r: Result<Self>)
        ensures
            match r {
                Ok(device) => device_of(name@) == Some(device),
                Err(e) => device_of(name@) is None && e@ == Failure::InvalidArgument(
                    "unknown device '"@ + name@
                        + "'; expected auto, cpu, cuda, vulkan or metal"@,
                ),
            },
    {
        if text::same(name, "auto") {
            Ok(DeviceKind::Auto)
        } else if text::same(name, "cpu") {
            Ok(DeviceKind::Cpu)
        } else if text::same(name, "cuda") {
            Ok(DeviceKind::Cuda)
        } else if text::same(name, "vulkan") {
            Ok(DeviceKind::Vulkan)
        } else if text::same(name, "metal") {
            Ok(DeviceKind::Metal)
        } else {
            Err(
                Error::InvalidArgument(
                    text::glue3(
                        "unknown device '",
                        name,
                        "'; expected auto, cpu, cuda, vulkan or metal",
                    ),
                ),
            )
        }
    }

    /// Resolve [`Self::Auto`] against the backends this build was compiled with.
    pub fn resolve(self, built: Backends) -> (r: Self)
        ensures
            r == self.resolved(built),
    {
        if self != DeviceKind::Auto {
            return self;
        }
        if built.cuda {
            DeviceKind::Cuda
        } else if built.vulkan {
            DeviceKind::Vulkan
        } else if built.metal {
            DeviceKind::Metal
        } else {
            DeviceKind::Cpu
        }
    }

    /// The name this device is shown under.
    fn shown(self) -> (r: &'static str)
        ensures
            r@ == self.label(),
    {
        match self {
            DeviceKind::Auto => "Auto",
            DeviceKind::Cpu => "Cpu",
            DeviceKind::Cuda => "Cuda",
            DeviceKind::Vulkan => "Vulkan",
            DeviceKind::Metal => "Metal",
        }
    }
}

/// The weight format that a name stands for, in any spelling that is accepted.
pub open spec fn quant_of(name: Seq<char>) -> Option<Quant> {
    if name == "f32"@ || name == "none"@ {
        Some(Quant::F32)
    } else if name == "q8"@ || name == "q8_0"@ {
        Some(Quant::Q80)
    } else if name == "q8_1"@ {
        Some(Quant::Q81)
    } else if name == "q8k"@ {
        Some(Quant::Q8k)
    } else if name == "q6k"@ {
        Some(Quant::Q6k)
    } else if name == "q5"@ || name == "q5_0"@ {
        Some(Quant::Q50)
    } else if name == "q5_1"@ {
        Some(Quant::Q51)
    } else if name == "q5k"@ {
        Some(Quant::Q5k)
    } else if name == "q4"@ || name == "q4_0"@ {
        Some(Quant::Q40)
    } else if name == "q4_1"@ {
        Some(Quant::Q41)
    } else if name == "q4k"@ {
        Some(Quant::Q4k)
    } else {
        None
    }
}

impl Quant {
    /// The name a weight format goes by.
    pub open spec fn name(self) -> Seq<char> {
        match self {
            Quant::F32 => "f32"@,
            Quant::Q80 => "q8_0"@,
            Quant::Q81 => "q8_1"@,
            Quant::Q8k => "q8k"@,
            Quant::Q6k => "q6k"@,
            Quant::Q50 => "q5_0"@,
            Quant::Q51 => "q5_1"@,
            Quant::Q5k => "q5k"@,
            Quant::Q40 => "q4_0"@,
            Quant::Q41 => "q4_1"@,
            Quant::Q4k => "q4k"@,
        }
    }

    /// Whether a weight format runs on a device: the quantized ones only on the CPU.
    pub open spec fn runs_on(self, device: DeviceKind) -> bool {
        device == DeviceKind::Cpu || self == Quant::F32
    }

    /// Parse the spellings the CLIs accept.
    pub fn parse(name: &str) -> (r: Result<Self>)
        ensures
            match r {
                Ok(quant) => quant_of(name@) == Some(quant),
                Err(e) => quant_of(name@) is None && e@ == Failure::InvalidArgument(
                    "unsupported quantization '"@ + name@
                        + "'; expected one of f32, q8_0, q8_1, q8k, q6k, q5_0, q5_1, q5k, q4_0, q4_1, q4k"@,
                ),
            },
    {
        if text::same(name, "f32") || text::same(name, "none") {
            Ok(Quant::F32)
        } else if text::same(name, "q8") || text::same(name, "q8_0") {
            Ok(Quant::Q80)
        } else if text::same(name, "q8_1") {
            Ok(Quant::Q81)
        } else if text::same(name, "q8k") {
            Ok(Quant::Q8k)
        } else if text::same(name, "q6k") {
            Ok(Quant::Q6k)
        } else if text::same(name, "q5") || text::same(name, "q5_0") {
            Ok(Quant::Q50)
        } else if text::same(name, "q5_1") {
            Ok(Quant::Q51)
        } else if text::same(name, "q5k") {
            Ok(Quant::Q5k)
        } else if text::same(name, "q4") || text::same(name, "q4_0") {
            Ok(Quant::Q40)
        } else if text::same(name, "q4_1") {
            Ok(Quant::Q41)
        } else if text::same(name, "q4k") {
            Ok(Quant::Q4k)
        } else {
            Err(
                Error::InvalidArgument(
                    text::glue3(
                        "unsupported quantization '",
                        name,
                        "'; expected one of f32, q8_0, q8_1, q8k, q6k, q5_0, q5_1, q5k, q4_0, q4_1, q4k",
                    ),
                ),
            )
        }
    }

    /// Error if this weight format cannot run on `device`.
    ///
    /// Building checks this too, but a caller that downloads a checkpoint before building should
    /// check first, so an impossible combination fails in milliseconds rather than after a few
    /// hundred megabytes.
    pub fn check_device(self, device: DeviceKind, built: Backends) -> (r: Result<()>)
        ensures
            match r {
                Ok(_) => self.runs_on(device.resolved(built)),
                Err(e) => !self.runs_on(device.resolved(built)) && e@ == Failure::Unsupported(
                    "quantization ("@ + self.name()
                        + ") is CPU-only, but the selected device is "@ + device.resolved(
                        built,
                    ).label(),
                ),
            },
    {
        let device = device.resolve(built);
        if device != DeviceKind::Cpu && self != Quant::F32 {
            let mut m = text::glue3(
                "quantization (",
                self.as_str(),
                ") is CPU-only, but the selected device is ",
            );
            m.append(device.shown());
            return Err(Error::Unsupported(m));
        }
        Ok(())
    }

    pub fn as_str(self) -> (r: &'static str)
        ensures
            r@ == self.name(),
    {
        match self {
            Quant::F32 => "f32",
            Quant::Q80 => "q8_0",
            Quant::Q81 => "q8_1",
            Quant::Q8k => "q8k",
            Quant::Q6k => "q6k",
            Quant::Q50 => "q5_0",
            Quant::Q51 => "q5_1",
            Quant::Q5k => "q5k",
            Quant::Q40 => "q4_0",
            Quant::Q41 => "q4_1",
            Quant::Q4k => "q4k",
        }
    }
}

/// Leaving the device open always lands on one the build has, and a named device stays named.
pub proof fn resolving_picks_a_real_device(device: DeviceKind, built: Backends)
    ensures
        device.resolved(built) != DeviceKind::Auto,
        device == DeviceKind::Auto ==> built.has(device.resolved(built)),
        device != DeviceKind::Auto ==> device.resolved(built) == device,
        device.resolved(built).resolved(built) == device.resolved(built),
{
}

/// Every weight format parses back from its name.
pub proof fn quant_names_round_trip(quant: Quant)
    ensures
        quant_of(quant.name()) == Some(quant),
{
    reveal_strlit("f32");
    reveal_strlit("none");
    reveal_strlit("q8");
    reveal_strlit("q8_0");
    reveal_strlit("q8_1");
    reveal_strlit("q8k");
    reveal_strlit("q6k");
    reveal_strlit("q5");
    reveal_strlit("q5_0");
    reveal_strlit("q5_1");
    reveal_strlit("q5k");
    reveal_strlit("q4");
    reveal_strlit("q4_0");
    reveal_strlit("q4_1");
    reveal_strlit("q4k");
    let n = quant.name();
    assert(n.len() == 3 || n.len() == 4);
    assert("none"@[0] == 'n' && n[0] != 'n');
    assert("f32"@[0] == 'f');
    assert(forall|q: Quant| q != Quant::F32 ==> #[trigger] q.name()[0] == 'q');
    assert("q8_0"@[1] == '8' && "q8_0"@[3] == '0');
    assert("q8_1"@[1] == '8' && "q8_1"@[3] == '1');
    assert("q8k"@[1] == '8');
    assert("q6k"@[1] == '6');
    assert("q5_0"@[1] == '5' && "q5_0"@[3] == '0');
    assert("q5_1"@[1] == '5' && "q5_1"@[3] == '1');
    assert("q5k"@[1] == '5');
    assert("q4_0"@[1] == '4' && "q4_0"@[3] == '0');
    assert("q4_1"@[1] == '4' && "q4_1"@[3] == '1');
    assert("q4k"@[1] == '4');
}

/// A device goes by one name, and each of the five names is a device.
pub proof fn devices_go_by_one_name(a: &str, b: &str, ra: Result<DeviceKind>, rb: Result<DeviceKind>)
    requires
        call_ensures(DeviceKind::parse, (a,), ra),
        call_ensures(DeviceKind::parse, (b,), rb),
    ensures
        ra is Ok <==> a@ == "auto"@ || a@ == "cpu"@ || a@ == "cuda"@ || a@ == "vulkan"@ || a@
            == "metal"@,
        ra is Ok && rb is Ok && ra->Ok_0 == rb->Ok_0 ==> a@ == b@,
        ra matches Ok(d) ==> (a@ == "cpu"@ <==> d == DeviceKind::Cpu) && (a@ == "auto"@ <==> d
            == DeviceKind::Auto) && (a@ == "cuda"@ <==> d == DeviceKind::Cuda),
{
    reveal_strlit("auto");
    reveal_strlit("cpu");
    reveal_strlit("cuda");
    reveal_strlit("vulkan");
    reveal_strlit("metal");
    assert("auto"@[0] == 'a' && "cuda"@[0] == 'c');
    assert("cpu"@.len() == 3 && "vulkan"@.len() == 6 && "metal"@.len() == 5);
}

} // verus!
