//! The transcription model catalogue and model-path resolution. Checking
//! the filesystem and downloading model files is the caller's business.

use vstd::prelude::*;
use crate::error::{ShuroError, ShuroResult, concat_msg};
use crate::text::{chars_vec, contains_chars, ends_with_chars, has_sub, is_suffix, str_eq, string_from_chars};

verus! {

/// One downloadable transcription model.
#[derive(Debug, Clone)]
pub struct ModelInfo {
    pub name: String,
    pub filename: String,
    pub url: String,
    pub size_mb: u64,
}

/// A catalogue entry is coherent: its filename derives from its name and
/// its URL from its filename.
pub open spec fn model_entry_coherent(m: ModelInfo) -> bool {
    &&& m.filename@ == "ggml-"@ + m.name@ + ".bin"@
    &&& m.url@ == "https://huggingface.co/ggerganov/whisper.cpp/resolve/main/"@ + m.filename@
}

fn make_model(name: &str, size_mb: u64) -> (r: ModelInfo)
    ensures
        r.name@ == name@,
        r.size_mb == size_mb,
        model_entry_coherent(r),
{
    let mut filename = String::new();
    filename.append("ggml-");
    filename.append(name);
    filename.append(".bin");
    proof {
        assert(filename@ =~= "ggml-"@ + name@ + ".bin"@);
    }
    let mut url = String::new();
    url.append("https://huggingface.co/ggerganov/whisper.cpp/resolve/main/");
    url.append(filename.as_str());
    proof {
        assert(url@ =~= "https://huggingface.co/ggerganov/whisper.cpp/resolve/main/"@
            + filename@);
    }
    let nv = chars_vec(name);
    ModelInfo { name: string_from_chars(&nv), filename, url, size_mb }
}

/// The models the pipeline knows how to fetch, smallest first: the tiny,
/// base, small and medium families and the three large revisions. Every
/// entry's filename and URL derive from its name.
pub fn get_available_models() -> (r: Vec<ModelInfo>)
    ensures
        r@.len() == 11,
        forall|i: int| 0 <= i < r@.len() ==> model_entry_coherent(#[trigger] r@[i]),
        r@[0].name@ == "tiny"@ && r@[0].size_mb == 39,
        r@[1].name@ == "tiny.en"@ && r@[1].size_mb == 39,
        r@[2].name@ == "base"@ && r@[2].size_mb == 142,
        r@[3].name@ == "base.en"@ && r@[3].size_mb == 142,
        r@[4].name@ == "small"@ && r@[4].size_mb == 244,
        r@[5].name@ == "small.en"@ && r@[5].size_mb == 244,
        r@[6].name@ == "medium"@ && r@[6].size_mb == 769,
        r@[7].name@ == "medium.en"@ && r@[7].size_mb == 769,
        r@[8].name@ == "large-v1"@ && r@[8].size_mb == 1550,
        r@[9].name@ == "large-v2"@ && r@[9].size_mb == 1550,
        r@[10].name@ == "large-v3"@ && r@[10].size_mb == 1550,
{
    let mut models: Vec<ModelInfo> = Vec::new();
    models.push(make_model("tiny", 39));
    models.push(make_model("tiny.en", 39));
    models.push(make_model("base", 142));
    models.push(make_model("base.en", 142));
    models.push(make_model("small", 244));
    models.push(make_model("small.en", 244));
    models.push(make_model("medium", 769));
    models.push(make_model("medium.en", 769));
    models.push(make_model("large-v1", 1550));
    models.push(make_model("large-v2", 1550));
    models.push(make_model("large-v3", 1550));
    models
}

/// The index of the first catalogue entry named `k`, or -1.
pub open spec fn spec_find_model(models: Seq<ModelInfo>, k: Seq<char>) -> int
    decreases models.len(),
{
    if models.len() == 0 {
        -1
    } else if spec_find_model(models.drop_last(), k) >= 0 {
        spec_find_model(models.drop_last(), k)
    } else if models.last().name@ == k {
        models.len() - 1
    } else {
        -1
    }
}

fn find_model_index(models: &Vec<ModelInfo>, name: &str) -> (r: Option<usize>)
    ensures
        match r {
            Some(i) => 0 <= i < models@.len() && models@[i as int].name@ == name@
                && spec_find_model(models@, name@) == i,
            None => spec_find_model(models@, name@) == -1,
        },
{
    let n = models.len();
    let mut i: usize = 0;
    while i < n
        invariant
            0 <= i <= n == models@.len(),
            forall|a: int| 0 <= a < i ==> (#[trigger] models@[a]).name@ != name@,
        decreases n - i,
    {
        if str_eq(models[i].name.as_str(), name) {
            proof {
                lemma_find_model_at(models@, name@, i as int);
            }
            return Some(i);
        }
        i = i + 1;
    }
    proof {
        lemma_find_model_none(models@, name@);
    }
    None
}

proof fn lemma_find_model_at(models: Seq<ModelInfo>, k: Seq<char>, i: int)
    requires
        0 <= i < models.len(),
        models[i].name@ == k,
        forall|a: int| 0 <= a < i ==> (#[trigger] models[a]).name@ != k,
    ensures
        spec_find_model(models, k) == i,
    decreases models.len(),
{
    assert(models.last() == models[models.len() - 1]);
    assert(forall|a: int| 0 <= a < models.len() - 1 ==> models.drop_last()[a] == models[a]);
    if i < models.len() - 1 {
        lemma_find_model_at(models.drop_last(), k, i);
    } else {
        lemma_find_model_none(models.drop_last(), k);
    }
}

proof fn lemma_find_model_none(models: Seq<ModelInfo>, k: Seq<char>)
    requires
        forall|a: int| 0 <= a < models.len() ==> (#[trigger] models[a]).name@ != k,
    ensures
        spec_find_model(models, k) == -1,
    decreases models.len(),
{
    if models.len() > 0 {
        assert(models.last() == models[models.len() - 1]);
        assert(forall|a: int| 0 <= a < models.len() - 1 ==> models.drop_last()[a] == models[a]);
        lemma_find_model_none(models.drop_last(), k);
    }
}

/// Picks the model to use: the preferred name when the catalogue has it,
/// else `base`, else `tiny`, and a configuration error when none of those
/// exists.
pub fn select_appropriate_model(models: &Vec<ModelInfo>, preferred: &str) -> (r: ShuroResult<
    ModelInfo,
>)
    ensures
        ({
            let by_name = spec_find_model(models@, preferred@);
            let by_base = spec_find_model(models@, "base"@);
            let by_tiny = spec_find_model(models@, "tiny"@);
            if by_name >= 0 {
                r matches Ok(m) && m.name@ == preferred@
            } else if by_base >= 0 {
                r matches Ok(m) && m.name@ == "base"@
            } else if by_tiny >= 0 {
                r matches Ok(m) && m.name@ == "tiny"@
            } else {
                r matches Err(e) && e is Config
            }
        }),
{
    if let Some(i) = find_model_index(models, preferred) {
        return Ok(clone_model(&models[i]));
    }
    if let Some(i) = find_model_index(models, "base") {
        return Ok(clone_model(&models[i]));
    }
    if let Some(i) = find_model_index(models, "tiny") {
        return Ok(clone_model(&models[i]));
    }
    let detail = crate::text::trim_str(preferred);
    Err(ShuroError::Config(concat_msg("No suitable transcription model found for: ", &detail)))
}

fn clone_model(m: &ModelInfo) -> (r: ModelInfo)
    ensures
        r.name@ == m.name@,
        r.filename@ == m.filename@,
        r.url@ == m.url@,
        r.size_mb == m.size_mb,
{
    let nv = chars_vec(m.name.as_str());
    let fv = chars_vec(m.filename.as_str());
    let uv = chars_vec(m.url.as_str());
    ModelInfo {
        name: string_from_chars(&nv),
        filename: string_from_chars(&fv),
        url: string_from_chars(&uv),
        size_mb: m.size_mb,
    }
}

/// A model identifier that is already a path: it holds a slash or ends in
/// `.bin`.
pub open spec fn spec_is_model_path(name: Seq<char>) -> bool {
    has_sub(name, "/"@) || is_suffix(".bin"@, name)
}

/// Resolves a model name to the file the transcriber should load: a name
/// that is already a path is kept; anything else becomes
/// `<models_dir>/ggml-<name>.bin`.
pub fn resolve_model_path(models_dir: &str, model_name: &str) -> (r: String)
    ensures
        spec_is_model_path(model_name@) ==> r@ == model_name@,
        !spec_is_model_path(model_name@) ==> r@ == models_dir@ + "/ggml-"@ + model_name@
            + ".bin"@,
{
    let nv = chars_vec(model_name);
    let slash = chars_vec("/");
    let bin = chars_vec(".bin");
    if contains_chars(&nv, &slash) || ends_with_chars(&nv, &bin) {
        return string_from_chars(&nv);
    }
    let mut out = String::new();
    out.append(models_dir);
    out.append("/ggml-");
    out.append(model_name);
    out.append(".bin");
    proof {
        assert(out@ =~= models_dir@ + "/ggml-"@ + model_name@ + ".bin"@);
    }
    out
}

} // verus!
