//! Backend selection: CPU, CUDA or Metal, with automatic detection.
use vstd::prelude::*;

use crate::text::{concat2, join, joined_by, lowercase, lowered, same, trim, trimmed, views};

verus! {

/// Where tensors live and are computed.
#[derive(Clone, Copy, Debug, PartialEq, Eq, Structural)]
pub enum Backend {
    Cpu,
    Cuda,
    Metal,
}

/// Why a preference could not be met.
#[derive(Clone, Debug)]
pub enum DeviceError {
    /// The preference names no backend.
    Unknown(String),
    /// The backend is not available.
    Missing(Backend),
}

/// What a preference asks for, with the case of its letters and the white
/// space around it ignored.
pub open spec fn wish(pref: Seq<char>) -> Seq<char> {
    lowered(trimmed(pref))
}

/// The preference leaves the choice to the library.
pub open spec fn wants_best(pref: Seq<char>) -> bool {
    wish(pref) == ""@ || wish(pref) == "auto"@
}

/// `r` is the right answer to the preference `pref` where CUDA and Metal are
/// available as `cuda` and `metal` say.
pub open spec fn answers(
    pref: Seq<char>,
    cuda: bool,
    metal: bool,
    r: Result<Backend, DeviceError>,
) -> bool {
    if wants_best(pref) {
        r == Ok::<Backend, DeviceError>(
            if cuda {
                Backend::Cuda
            } else if metal {
                Backend::Metal
            } else {
                Backend::Cpu
            },
        )
    } else if wish(pref) == "cpu"@ {
        r == Ok::<Backend, DeviceError>(Backend::Cpu)
    } else if wish(pref) == "cuda"@ {
        if cuda {
            r == Ok::<Backend, DeviceError>(Backend::Cuda)
        } else {
            r == Err::<Backend, DeviceError>(DeviceError::Missing(Backend::Cuda))
        }
    } else if wish(pref) == "metal"@ {
        if metal {
            r == Ok::<Backend, DeviceError>(Backend::Metal)
        } else {
            r == Err::<Backend, DeviceError>(DeviceError::Missing(Backend::Metal))
        }
    } else {
        r matches Err(DeviceError::Unknown(name)) && name@ == wish(pref)
    }
}

/// `candle_core::utils::cuda_is_available`. What it says depends on how the
/// program was built, so nothing is claimed of it.
#[verifier::external_body]
fn cuda_is_available() -> (r: bool) {
    candle_core::utils::cuda_is_available()
}

/// `candle_core::utils::metal_is_available`. What it says depends on how the
/// program was built, so nothing is claimed of it.
#[verifier::external_body]
fn metal_is_available() -> (r: bool) {
    candle_core::utils::metal_is_available()
}

/// Resolve a preference, given which GPU backends are available.
///
/// * `auto`, or nothing: the best available of CUDA, Metal and CPU;
/// * `cpu`, `cuda`, `metal`: that backend, or an error if it is missing.
pub fn choose_backend(pref: &str, cuda: bool, metal: bool) -> (r: Result<Backend, DeviceError>)
    ensures
        answers(pref@, cuda, metal, r),
{
    let name = lowercase(trim(pref).as_str());
    if same(name.as_str(), "") || same(name.as_str(), "auto") {
        if cuda {
            Ok(Backend::Cuda)
        } else if metal {
            Ok(Backend::Metal)
        } else {
            Ok(Backend::Cpu)
        }
    } else if same(name.as_str(), "cpu") {
        Ok(Backend::Cpu)
    } else if same(name.as_str(), "cuda") {
        if cuda {
            Ok(Backend::Cuda)
        } else {
            Err(DeviceError::Missing(Backend::Cuda))
        }
    } else if same(name.as_str(), "metal") {
        if metal {
            Ok(Backend::Metal)
        } else {
            Err(DeviceError::Missing(Backend::Metal))
        }
    } else {
        Err(DeviceError::Unknown(name))
    }
}

/// Resolve a preference on this machine.
pub fn pick_device(pref: &str) -> (r: Result<Backend, DeviceError>)
    ensures
        exists|cuda: bool, metal: bool| answers(pref@, cuda, metal, r),
        wants_best(pref@) ==> r is Ok,
        wish(pref@) == "cpu"@ ==> r == Ok::<Backend, DeviceError>(Backend::Cpu),
{
    proof {
        reveal_strlit("");
        reveal_strlit("auto");
        reveal_strlit("cpu");
        assert(""@.len() == 0 && "auto"@.len() == 4 && "cpu"@.len() == 3);
    }
    let cuda = cuda_is_available();
    let metal = metal_is_available();
    choose_backend(pref, cuda, metal)
}

/// The name of a backend.
pub open spec fn backend_name(b: Backend) -> Seq<char> {
    match b {
        Backend::Cpu => "CPU"@,
        Backend::Cuda => "CUDA"@,
        Backend::Metal => "Metal"@,
    }
}

/// Human-readable name of a backend.
pub fn describe(device: &Backend) -> (s: String)
    ensures
        s@ == backend_name(*device),
{
    match device {
        Backend::Cpu => "CPU".to_owned(),
        Backend::Cuda => "CUDA".to_owned(),
        Backend::Metal => "Metal".to_owned(),
    }
}

/// What is shown for a preference: the backend that meets it, or the preference
/// itself where none does.
pub open spec fn shown(pref: Seq<char>, r: Result<Backend, DeviceError>) -> Seq<char> {
    match r {
        Ok(b) => backend_name(b),
        Err(_) => pref,
    }
}

/// What is shown for a preference, given the answer to it.
pub fn show_answer(pref: &str, r: &Result<Backend, DeviceError>) -> (s: String)
    ensures
        s@ == shown(pref@, *r),
{
    match r {
        Ok(b) => describe(b),
        Err(_) => pref.to_owned(),
    }
}

/// What is shown for a preference on this machine.
pub fn device_name(pref: &str) -> (s: String)
    ensures
        exists|cuda: bool, metal: bool, r: Result<Backend, DeviceError>|
            #[trigger] answers(pref@, cuda, metal, r) && s@ == shown(pref@, r),
{
    let r = pick_device(pref);
    show_answer(pref, &r)
}

/// The names of the available backends.
pub open spec fn available_names(cuda: bool, metal: bool) -> Seq<Seq<char>> {
    let gpu = if cuda {
        seq!["CUDA"@]
    } else {
        Seq::empty()
    };
    let apple = if metal {
        seq!["Metal"@]
    } else {
        Seq::empty()
    };
    seq!["CPU"@] + gpu + apple
}

/// The available backends, for display.
pub fn report_backends(cuda: bool, metal: bool) -> (s: String)
    ensures
        s@ == joined_by(available_names(cuda, metal), " / "@),
{
    let mut names: Vec<String> = Vec::new();
    names.push("CPU".to_owned());
    if cuda {
        names.push("CUDA".to_owned());
    }
    if metal {
        names.push("Metal".to_owned());
    }
    assert(views(names@) =~= available_names(cuda, metal));
    join(&names, " / ")
}

/// The backends that are usable on this machine, for display.
pub fn backend_report() -> (s: String)
    ensures
        exists|cuda: bool, metal: bool|
            s@ == joined_by(#[trigger] available_names(cuda, metal), " / "@),
{
    let cuda = cuda_is_available();
    let metal = metal_is_available();
    report_backends(cuda, metal)
}

/// Whether there is a GPU backend, given which are available.
pub fn any_gpu(cuda: bool, metal: bool) -> (r: bool)
    ensures
        r == (cuda || metal),
{
    cuda || metal
}

/// Whether any GPU backend is present on this machine.
pub fn is_gpu_available() -> (r: bool) {
    let cuda = cuda_is_available();
    let metal = metal_is_available();
    any_gpu(cuda, metal)
}

/// The message of an error.
pub open spec fn device_error_text(e: DeviceError) -> Seq<char> {
    match e {
        DeviceError::Unknown(name) => "unknown device '"@ + name@
            + "' \u{2014} use one of: auto, cpu, cuda, metal"@,
        DeviceError::Missing(b) => backend_name(b) + " is not available"@,
    }
}

impl DeviceError {
    /// The error in words.
    pub fn message(&self) -> (s: String)
        ensures
            s@ == device_error_text(*self),
    {
        match self {
            DeviceError::Unknown(name) => concat2(
                concat2("unknown device '", name.as_str()).as_str(),
                "' \u{2014} use one of: auto, cpu, cuda, metal",
            ),
            DeviceError::Missing(b) => concat2(describe(b).as_str(), " is not available"),
        }
    }
}

/// The case of the letters of a preference, and white space around it, make no
/// difference.
pub proof fn law_preference_normalized(
    a: Seq<char>,
    b: Seq<char>,
    cuda: bool,
    metal: bool,
    r: Result<Backend, DeviceError>,
)
    requires
        wish(a) == wish(b),
    ensures
        answers(a, cuda, metal, r) == answers(b, cuda, metal, r),
{
}

/// A preference by name, in any case and with white space around it, is met by
/// that backend or not at all; `auto` and nothing are met by the best backend
/// there is; and any other name is refused.
pub proof fn law_preference_is_met(
    pref: Seq<char>,
    cuda: bool,
    metal: bool,
    r: Result<Backend, DeviceError>,
)
    requires
        answers(pref, cuda, metal, r),
    ensures
        r matches Ok(Backend::Cuda) ==> cuda,
        r matches Ok(Backend::Metal) ==> metal,
        ({
            let name = lowered(trimmed(pref));
            &&& name == "cpu"@ ==> r is Ok && r->Ok_0 is Cpu
            &&& name == "cuda"@ ==> (r is Ok ==> r->Ok_0 is Cuda) && (r is Ok <==> cuda)
            &&& name == "metal"@ ==> (r is Ok ==> r->Ok_0 is Metal) && (r is Ok <==> metal)
            &&& name == "auto"@ || name.len() == 0 ==> r is Ok && (cuda ==> r->Ok_0 is Cuda) && (
            !cuda && metal ==> r->Ok_0 is Metal)
            &&& name != "cpu"@ && name != "cuda"@ && name != "metal"@ && name != "auto"@
                && name.len() > 0 ==> r is Err && r->Err_0 is Unknown && r->Err_0->Unknown_0@
                == name
            &&& r is Err && r->Err_0 is Missing ==> (r->Err_0->Missing_0 is Cuda && name
                == "cuda"@) || (r->Err_0->Missing_0 is Metal && name == "metal"@)
        }),
{
    reveal_strlit("");
    reveal_strlit("auto");
    reveal_strlit("cpu");
    reveal_strlit("cuda");
    reveal_strlit("metal");
    assert(""@.len() == 0 && "auto"@.len() == 4 && "cpu"@.len() == 3 && "cuda"@.len() == 4
        && "metal"@.len() == 5 && "auto"@[0] == 'a' && "cuda"@[0] == 'c');
    let name = lowered(trimmed(pref));
    if name.len() == 0 {
        assert(name =~= ""@);
    }
}

/// What is shown for a preference is the name of the backend that meets it, and
/// the preference itself where none does.
pub proof fn law_what_is_shown(pref: Seq<char>, r: Result<Backend, DeviceError>)
    ensures
        r is Err ==> shown(pref, r) == pref,
        r is Ok ==> shown(pref, r) == match r->Ok_0 {
            Backend::Cpu => "CPU"@,
            Backend::Cuda => "CUDA"@,
            Backend::Metal => "Metal"@,
        },
{
}

/// The backends that are reported are the CPU and those that are available.
pub proof fn law_reported_backends(cuda: bool, metal: bool)
    ensures
        ({
            let names = available_names(cuda, metal);
            &&& names[0] == "CPU"@
            &&& names.contains("CUDA"@) <==> cuda
            &&& names.contains("Metal"@) <==> metal
            &&& names.len() == 1 + (if cuda {
                1int
            } else {
                0
            }) + (if metal {
                1int
            } else {
                0
            })
        }),
{
    reveal_strlit("CPU");
    reveal_strlit("CUDA");
    reveal_strlit("Metal");
    assert("CPU"@.len() == 3 && "CUDA"@.len() == 4 && "Metal"@.len() == 5);
    let names = available_names(cuda, metal);
    if cuda {
        assert(names[1] == "CUDA"@);
    }
    if metal {
        assert(names[names.len() - 1] == "Metal"@);
    }
}

/// An error names what was asked for.
pub proof fn law_device_errors_in_words(name: String, b: Backend)
    ensures
        device_error_text(DeviceError::Unknown(name)) == "unknown device '"@ + name@
            + "' \u{2014} use one of: auto, cpu, cuda, metal"@,
        device_error_text(DeviceError::Missing(b)) == shown(
            Seq::empty(),
            Ok::<Backend, DeviceError>(b),
        ) + " is not available"@,
{
}

} // verus!
