//! The analyzer bundle manifest: which model variants exist and for which
//! hardware.
use vstd::prelude::*;

use crate::install::HardwareClass;
use crate::text::owned;

verus! {

/// A downloadable file and how to check it.
#[derive(Debug, Clone, PartialEq, Eq)]
pub struct Artifact {
    pub url: String,
    pub sha256: String,
    pub size_bytes: u64,
}

/// One installable model variant.
#[derive(Debug, Clone, PartialEq, Eq)]
pub struct AnalyzerVariant {
    pub id: String,
    pub label: String,
    pub hardware: HardwareClass,
    pub recommended: bool,
    pub model: Artifact,
    /// Shared runtime library; `None` when the runtime is statically linked.
    pub runtime: Option<Artifact>,
}

/// The manifest of available analyzer variants.
#[derive(Debug, Clone, PartialEq, Eq)]
pub struct AnalyzerManifest {
    pub version: u32,
    pub generated_at: String,
    pub minimum_hamm0r_version: String,
    pub variants: Vec<AnalyzerVariant>,
}

pub open spec fn default_model_url() -> Seq<char> {
    "https://huggingface.co/Qwen/Qwen2.5-3B-Instruct-GGUF/resolve/main/qwen2.5-3b-instruct-q4_k_m.gguf"@
}

/// The model every default variant downloads.
pub open spec fn is_default_model(a: Artifact) -> bool {
    &&& a.url@ == default_model_url()
    &&& a.sha256@ == "TODO-verify-sha256-from-huggingface"@
    &&& a.size_bytes == 1930000000
}

fn default_model() -> (a: Artifact)
    ensures
        is_default_model(a),
{
    Artifact {
        url: owned(
            "https://huggingface.co/Qwen/Qwen2.5-3B-Instruct-GGUF/resolve/main/qwen2.5-3b-instruct-q4_k_m.gguf",
        ),
        sha256: owned("TODO-verify-sha256-from-huggingface"),
        size_bytes: 1930000000,
    }
}

/// The default manifest (used in tests and the activation preview): one
/// Qwen2.5 3B Q4_K_M variant per hardware class, the Apple Silicon and
/// AVX2 ones recommended, none with a separate runtime.
pub fn default_manifest() -> (m: AnalyzerManifest)
    ensures
        m.version == 1,
        m.generated_at@ == "2026-04-27T00:00:00Z"@,
        m.minimum_hamm0r_version@ == "0.1.0"@,
        m.variants@.len() == 3,
        m.variants@[0].id@ == "qwen2.5-3b-q4-apple"@,
        m.variants@[0].label@ == "Qwen2.5 3B Q4_K_M (Apple Silicon \u{2014} Metal)"@,
        m.variants@[0].hardware == HardwareClass::AppleSilicon,
        m.variants@[0].recommended,
        m.variants@[1].id@ == "qwen2.5-3b-q4-x86"@,
        m.variants@[1].label@ == "Qwen2.5 3B Q4_K_M (x86-64 AVX2)"@,
        m.variants@[1].hardware == HardwareClass::X86_64Avx2,
        m.variants@[1].recommended,
        m.variants@[2].id@ == "qwen2.5-3b-q4-generic"@,
        m.variants@[2].label@ == "Qwen2.5 3B Q4_K_M (CPU generic \u{2014} slow)"@,
        m.variants@[2].hardware == HardwareClass::Generic,
        !m.variants@[2].recommended,
        forall|i: int|
            0 <= i < 3 ==> is_default_model(#[trigger] m.variants@[i].model) && m.variants@[i].runtime
                is None,
{
    let variants = vec![
        AnalyzerVariant {
            id: owned("qwen2.5-3b-q4-apple"),
            label: owned("Qwen2.5 3B Q4_K_M (Apple Silicon \u{2014} Metal)"),
            hardware: HardwareClass::AppleSilicon,
            recommended: true,
            model: default_model(),
            runtime: None,
        },
        AnalyzerVariant {
            id: owned("qwen2.5-3b-q4-x86"),
            label: owned("Qwen2.5 3B Q4_K_M (x86-64 AVX2)"),
            hardware: HardwareClass::X86_64Avx2,
            recommended: true,
            model: default_model(),
            runtime: None,
        },
        AnalyzerVariant {
            id: owned("qwen2.5-3b-q4-generic"),
            label: owned("Qwen2.5 3B Q4_K_M (CPU generic \u{2014} slow)"),
            hardware: HardwareClass::Generic,
            recommended: false,
            model: default_model(),
            runtime: None,
        },
    ];
    AnalyzerManifest {
        version: 1,
        generated_at: owned("2026-04-27T00:00:00Z"),
        minimum_hamm0r_version: owned("0.1.0"),
        variants,
    }
}

} // verus!
