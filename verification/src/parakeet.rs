//! Running NVIDIA Parakeet TDT: which device it runs on, and what it is called.

use crate::asr::{AsrError, AsrErrorView};
use crate::chars::push_text;
use crate::config::Accelerator;
use crate::models::Files;
use vstd::prelude::*;

verus! {

/// What a model runs on.
#[derive(Debug, Clone, Copy, PartialEq, Eq, Structural)]
pub enum Provider {
    Cpu,
    Cuda,
    TensorRt,
}

/// What this build was compiled with, and what this machine can load.
#[derive(Debug, Clone, Copy, PartialEq, Eq)]
pub struct Support {
    /// The CUDA execution provider is built in.
    pub cuda: bool,
    /// The TensorRT execution provider is built in.
    pub tensorrt: bool,
    /// The CUDA execution provider can be loaded.
    pub cuda_loads: bool,
}

pub open spec fn provided(accelerator: Accelerator, support: Support) -> (Provider, Seq<char>) {
    match accelerator {
        Accelerator::Cpu => (Provider::Cpu, "cpu"@),
        Accelerator::Cuda => if !support.cuda {
            (Provider::Cpu, "cpu (cuda not built in)"@)
        } else if support.cuda_loads {
            (Provider::Cuda, "cuda"@)
        } else {
            (Provider::Cpu, "cpu (cuda unavailable)"@)
        },
        Accelerator::TensorRt => if support.tensorrt {
            (Provider::TensorRt, "tensorrt"@)
        } else {
            (Provider::Cpu, "cpu (tensorrt not built in)"@)
        },
    }
}

/// Map the configured accelerator to a provider this binary was actually built
/// with *and* can actually load.
pub fn provider_for(accelerator: Accelerator, support: Support) -> (r: (Provider, &'static str))
    ensures
        (r.0, r.1@) == provided(accelerator, support),
{
    match accelerator {
        Accelerator::Cpu => (Provider::Cpu, "cpu"),
        Accelerator::Cuda => {
            if !support.cuda {
                (Provider::Cpu, "cpu (cuda not built in)")
            } else if support.cuda_loads {
                (Provider::Cuda, "cuda")
            } else {
                (Provider::Cpu, "cpu (cuda unavailable)")
            }
        },
        Accelerator::TensorRt => {
            if support.tensorrt {
                (Provider::TensorRt, "tensorrt")
            } else {
                (Provider::Cpu, "cpu (tensorrt not built in)")
            }
        },
    }
}

/// A model never runs on a device that was not asked for, except the CPU.
pub proof fn law_only_what_was_asked_for_or_the_cpu(accelerator: Accelerator, support: Support)
    ensures
        match provided(accelerator, support).0 {
            Provider::Cpu => true,
            Provider::Cuda => accelerator == Accelerator::Cuda && support.cuda
                && support.cuda_loads,
            Provider::TensorRt => accelerator == Accelerator::TensorRt && support.tensorrt,
        },
{
}

/// What came of trying to load the provider library from one place.
#[derive(Debug, Clone, PartialEq, Eq)]
pub enum Attempt {
    Loaded,
    Failed { reason: String, exists: bool },
}

/// What came of trying to load the provider library from one place.
pub enum AttemptView {
    Loaded,
    Failed { reason: Seq<char>, exists: bool },
}

impl View for Attempt {
    type V = AttemptView;

    open spec fn view(&self) -> AttemptView {
        match self {
            Attempt::Loaded => AttemptView::Loaded,
            Attempt::Failed { reason, exists } => AttemptView::Failed {
                reason: reason@,
                exists: *exists,
            },
        }
    }
}

pub open spec fn attempt_views(attempts: Seq<Attempt>) -> Seq<AttemptView> {
    attempts.map_values(|a: Attempt| a@)
}

/// Why the attempts failed, and whether that is the reason of a library that exists:
/// the first such reason, or else the last reason.
pub open spec fn failure(attempts: Seq<AttemptView>) -> (Seq<char>, bool)
    decreases attempts.len(),
{
    if attempts.len() == 0 {
        ("provider library not found"@, false)
    } else {
        let (why, settled) = failure(attempts.drop_last());
        match attempts.last() {
            AttemptView::Failed { reason, exists } if !settled => (reason, exists),
            _ => (why, settled),
        }
    }
}

/// Can ONNX Runtime's CUDA provider actually be loaded on this machine, going by
/// what came of loading it from each place it may be in?
///
/// A candidate that exists explains the *real* problem — a missing CUDA
/// dependency — while a candidate that does not merely says so. The second never
/// overwrites the first.
pub fn cuda_availability(attempts: &[Attempt]) -> (r: Result<(), String>)
    ensures
        match r {
            Ok(_) => exists|i: int| 0 <= i < attempts@.len() && #[trigger] attempts@[i] is Loaded,
            Err(why) => (forall|i: int|
                0 <= i < attempts@.len() ==> #[trigger] attempts@[i] is Failed) && why@ == failure(
                attempt_views(attempts@),
            ).0,
        },
{
    let mut why = "provider library not found".to_owned();
    let mut settled = false;
    let ghost all = attempt_views(attempts@);
    for i in 0..attempts.len()
        invariant
            all == attempt_views(attempts@),
            (why@, settled) == failure(all.take(i as int)),
            forall|j: int| 0 <= j < i ==> #[trigger] attempts@[j] is Failed,
    {
        proof {
            assert(all.take(i + 1).drop_last() =~= all.take(i as int));
            assert(all.take(i + 1).last() == attempts@[i as int]@);
        }
        match &attempts[i] {
            Attempt::Loaded => {
                assert(attempts@[i as int] is Loaded);
                return Ok(());
            },
            Attempt::Failed { reason, exists } => {
                if !settled {
                    why = reason.clone();
                    settled = *exists;
                }
            },
        }
    }
    assert(all.take(all.len() as int) =~= all);
    Err(why)
}

/// What a loaded model is called.
pub open spec fn model_label(quantised: bool, device: Seq<char>) -> Seq<char> {
    (if quantised {
        "parakeet-tdt-0.6b-v3 (int8)"@
    } else {
        "parakeet-tdt-0.6b-v3"@
    }) + " on "@ + device
}

/// What the model in a directory with these files is called once it runs on
/// `device`.
pub fn label(files: &Files, device: &str) -> (r: String)
    ensures
        r@ == model_label(files.encoder_model_int8 && !files.encoder_model, device@),
{
    let quantised = files.encoder_model_int8 && !files.encoder_model;
    let mut out = if quantised {
        "parakeet-tdt-0.6b-v3 (int8)".to_owned()
    } else {
        "parakeet-tdt-0.6b-v3".to_owned()
    };
    push_text(&mut out, " on ");
    push_text(&mut out, device);
    out
}

/// What to load the model in `dir` with, and what it will be called.
pub fn load(is_dir: bool, dir: &str, files: &Files, accelerator: Accelerator, support: Support) -> (r:
    Result<(Provider, String), AsrError>)
    ensures
        match r {
            Ok((provider, name)) => is_dir && provider == provided(accelerator, support).0 && name@
                == model_label(
                files.encoder_model_int8 && !files.encoder_model,
                provided(accelerator, support).1,
            ),
            Err(e) => !is_dir && e@ == AsrErrorView::ModelMissing(dir@),
        },
{
    if !is_dir {
        return Err(AsrError::ModelMissing(dir.to_owned()));
    }
    let (provider, device) = provider_for(accelerator, support);
    Ok((provider, label(files, device)))
}

/// The model runs on the device asked for wherever this build has it and it can be
/// loaded, and on the CPU otherwise; what it is called says which and why.
pub proof fn law_the_device_asked_for_is_used(accelerator: Accelerator, support: Support)
    ensures
        provided(accelerator, support).0 == Provider::Cuda <==> accelerator == Accelerator::Cuda
            && support.cuda && support.cuda_loads,
        provided(accelerator, support).0 == Provider::TensorRt <==> accelerator
            == Accelerator::TensorRt && support.tensorrt,
        provided(accelerator, support).1 == (match (
            accelerator,
            provided(accelerator, support).0,
        ) {
            (_, Provider::Cuda) => "cuda"@,
            (_, Provider::TensorRt) => "tensorrt"@,
            (Accelerator::Cpu, _) => "cpu"@,
            (Accelerator::TensorRt, _) => "cpu (tensorrt not built in)"@,
            (Accelerator::Cuda, _) => if support.cuda {
                "cpu (cuda unavailable)"@
            } else {
                "cpu (cuda not built in)"@
            },
        }),
{
}

/// Where every attempt failed, the reason is that of the first library that exists;
/// where none exists, that of the last place looked in.
pub proof fn law_the_real_reason_is_given(attempts: Seq<AttemptView>, k: int)
    requires
        forall|i: int| 0 <= i < attempts.len() ==> #[trigger] attempts[i] is Failed,
    ensures
        attempts.len() == 0 ==> failure(attempts) == ("provider library not found"@, false),
        0 <= k < attempts.len() && attempts[k]->exists && (forall|i: int|
            0 <= i < k ==> !(#[trigger] attempts[i])->exists) ==> failure(attempts) == (
            attempts[k]->reason,
            true,
        ),
        attempts.len() > 0 && (forall|i: int|
            0 <= i < attempts.len() ==> !(#[trigger] attempts[i])->exists) ==> failure(attempts)
            == (attempts.last()->reason, false),
    decreases attempts.len(),
{
    if attempts.len() > 0 {
        let front = attempts.drop_last();
        assert forall|i: int| 0 <= i < front.len() implies #[trigger] front[i] is Failed by {
            assert(front[i] == attempts[i]);
        }
        assert forall|i: int| 0 <= i < front.len() implies front[i] == #[trigger] attempts[i] by {}
        assert(attempts[attempts.len() - 1] is Failed);
        law_the_real_reason_is_given(front, k);
    }
}

/// What a model is called names the model, whether it is quantised, and the device.
pub proof fn law_what_a_model_is_called(device: Seq<char>)
    ensures
        model_label(true, device) == "parakeet-tdt-0.6b-v3 (int8) on "@ + device,
        model_label(false, device) == "parakeet-tdt-0.6b-v3 on "@ + device,
{
    reveal_strlit("parakeet-tdt-0.6b-v3 (int8)");
    reveal_strlit("parakeet-tdt-0.6b-v3");
    reveal_strlit(" on ");
    reveal_strlit("parakeet-tdt-0.6b-v3 (int8) on ");
    reveal_strlit("parakeet-tdt-0.6b-v3 on ");
    assert(model_label(true, device) =~= "parakeet-tdt-0.6b-v3 (int8) on "@ + device);
    assert(model_label(false, device) =~= "parakeet-tdt-0.6b-v3 on "@ + device);
}

} // verus!
