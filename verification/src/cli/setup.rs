//! Where the model comes from: found, or downloaded.
use crate::asr::engine;
use crate::asr::engine::ModelFiles;
use crate::common::config;
use crate::text;
use vstd::prelude::*;
use vstd::string::StringExecFns;

verus! {

/// Model download source.
pub const MODEL_BASE: &'static str =
    "https://huggingface.co/haixuantao/SenseVoiceSmall-onnx/resolve/main";

/// How long a download may take, in seconds.
pub const DOWNLOAD_TIMEOUT_SECS: u64 = 600;

/// How many redirects a download follows.
pub const DOWNLOAD_REDIRECTS: usize = 10;

/// A file of the model.
#[derive(Debug, Clone, Copy, PartialEq, Eq)]
pub struct ModelFile {
    /// Its name at the source.
    pub remote: &'static str,
    /// Its name in the model's directory.
    pub local: &'static str,
    /// Its size, in words.
    pub size: &'static str,
}

/// The files of the model: name at the source, local name, and size.
pub open spec fn model_file_names() -> Seq<(Seq<char>, Seq<char>, Seq<char>)> {
    seq![
        ("model_quant.onnx"@, "model.onnx"@, "~230 MB"@),
        ("am.mvn"@, "am.mvn"@, "~11 KB"@),
        ("tokens.json"@, "tokens.json"@, "~344 KB"@),
        ("config.yaml"@, "config.yaml"@, "~2 KB"@),
    ]
}

/// A model file as a mathematical value.
pub open spec fn file_view(f: ModelFile) -> (Seq<char>, Seq<char>, Seq<char>) {
    (f.remote@, f.local@, f.size@)
}

/// The files of the model.
pub fn model_files() -> (r: Vec<ModelFile>)
    ensures
        r@.map_values(|f: ModelFile| file_view(f)) == model_file_names(),
{
    let files = vec![
        ModelFile { remote: "model_quant.onnx", local: "model.onnx", size: "~230 MB" },
        ModelFile { remote: "am.mvn", local: "am.mvn", size: "~11 KB" },
        ModelFile { remote: "tokens.json", local: "tokens.json", size: "~344 KB" },
        ModelFile { remote: "config.yaml", local: "config.yaml", size: "~2 KB" },
    ];
    assert(files@.map_values(|f: ModelFile| file_view(f)) =~= model_file_names());
    files
}

/// What is done about a file of the model.
#[derive(Debug)]
pub enum DownloadStep {
    /// It is there already.
    Skip,
    /// It is downloaded from this address.
    Download(String),
}

/// The address of a file at the source.
pub open spec fn file_url(remote: Seq<char>) -> Seq<char> {
    MODEL_BASE@ + "/"@ + remote
}

/// What is done about a file: it is downloaded where it is missing, or where
/// `force` asks for it.
pub fn download_step(file: &ModelFile, exists: bool, force: bool) -> (r: DownloadStep)
    ensures
        match r {
            DownloadStep::Skip => exists && !force,
            DownloadStep::Download(url) => {
                &&& !(exists && !force)
                &&& url@ == file_url(file.remote@)
            },
        },
{
    if exists && !force {
        DownloadStep::Skip
    } else {
        let mut url = text::concat(MODEL_BASE, "/");
        url.append(file.remote);
        DownloadStep::Download(url)
    }
}

/// How much of a download is done, in per cent.
pub fn percent_done(downloaded: u64, total: u64) -> (r: u64)
    requires
        total > 0,
        downloaded * 100 <= u64::MAX,
    ensures
        r == downloaded * 100 / total as int,
{
    downloaded * 100 / total
}

/// Where the model is taken from.
#[derive(Debug)]
pub enum ModelSource {
    /// The directory given on the command line.
    Override(String),
    /// The configured directory.
    Configured(String),
    /// The default directory, whose model is there but not configured yet.
    Installed(String),
    /// The default directory, after the model was downloaded to it.
    Download(String),
}

/// Where the model is taken from. In this order: the directory given on the
/// command line; the configured one, unless it belongs to another program or
/// holds no usable model; the default one, if it holds one; else the model is
/// downloaded to the default one.
pub open spec fn chosen_model(
    model_override: Option<String>,
    configured: Option<(String, bool)>,
    default_dir: (String, bool),
) -> ModelSource {
    match model_override {
        Some(p) => ModelSource::Override(p),
        None => match configured {
            Some((p, true)) if !config::third_party_path(p@) => ModelSource::Configured(p),
            _ => if default_dir.1 {
                ModelSource::Installed(default_dir.0)
            } else {
                ModelSource::Download(default_dir.0)
            },
        },
    }
}

/// Where the model is taken from. `model_override` is the directory given on the
/// command line; `configured` the configured one, where there is one, with
/// whether it holds a usable model; `default_dir` the default directory and
/// whether that does.
pub fn choose_model(
    model_override: Option<String>,
    configured: Option<(String, bool)>,
    default_dir: (String, bool),
) -> (r: ModelSource)
    ensures
        r == chosen_model(model_override, configured, default_dir),
{
    if let Some(p) = model_override {
        return ModelSource::Override(p);
    }
    if let Some((p, ready)) = configured {
        if !config::is_third_party_path(p.as_str()) {
            if ready {
                return ModelSource::Configured(p);
            }
        }
    }
    let (dir, ready) = default_dir;
    if ready {
        ModelSource::Installed(dir)
    } else {
        ModelSource::Download(dir)
    }
}

/// Whether the directory of a source is configured from that time on.
pub open spec fn saved_source(source: ModelSource) -> bool {
    source is Installed || source is Download
}

/// Whether the chosen directory is written to the configuration.
pub fn is_saved(source: &ModelSource) -> (r: bool)
    ensures
        r == saved_source(*source),
{
    match source {
        ModelSource::Installed(_) => true,
        ModelSource::Download(_) => true,
        _ => false,
    }
}

/// Where a manual download goes, and whether that directory is then configured:
/// to the directory asked for, which is not, or to the default one, which is.
pub fn setup_target(model_dir: Option<String>, default_dir: String) -> (r: (String, bool))
    ensures
        match model_dir {
            Some(d) => r == (d, false),
            None => r == (default_dir, true),
        },
{
    match model_dir {
        Some(d) => (d, false),
        None => (default_dir, true),
    }
}

// ── Laws ─────────────────────────────────────────────────────────────────────

/// Whether a model directory holds the file of the given name, as far as the
/// names are told apart.
pub open spec fn holds_file(files: ModelFiles, name: Seq<char>) -> bool {
    &&& name == "model.onnx"@ ==> files.model_onnx
    &&& name == "model_quant.onnx"@ ==> files.model_quant_onnx
    &&& name == "tokens.json"@ ==> files.tokens
    &&& name == "am.mvn"@ ==> files.cmvn
}

/// A directory that holds every file of the download holds a usable model, with
/// its normalisation file.
pub proof fn law_downloaded_model_is_ready(files: ModelFiles)
    requires
        files.is_dir,
        forall|i: int|
            0 <= i < model_file_names().len() ==> holds_file(
                files,
                #[trigger] model_file_names()[i].1,
            ),
    ensures
        engine::ready_model(files),
        files.cmvn,
{
    assert(holds_file(files, model_file_names()[0].1));
    assert(holds_file(files, model_file_names()[1].1));
    assert(holds_file(files, model_file_names()[2].1));
}

/// A directory that was written to the configuration is the one that is used
/// from that time on, as long as it holds a usable model and does not belong to
/// another program.
pub proof fn law_saved_model_is_used_again(
    configured: Option<(String, bool)>,
    default_dir: (String, bool),
    later: (String, bool),
)
    requires
        saved_source(chosen_model(None, configured, default_dir)),
        !config::third_party_path(default_dir.0@),
    ensures
        chosen_model(None, Some((default_dir.0, true)), later) == ModelSource::Configured(
            default_dir.0,
        ),
        chosen_model(None, configured, default_dir) == ModelSource::Installed(default_dir.0)
            || chosen_model(None, configured, default_dir) == ModelSource::Download(default_dir.0),
{
}

/// A directory given on the command line is used whatever is configured, and is
/// not written to the configuration.
pub proof fn law_given_model_wins(
    given: String,
    configured: Option<(String, bool)>,
    default_dir: (String, bool),
)
    ensures
        chosen_model(Some(given), configured, default_dir) == ModelSource::Override(given),
        !saved_source(chosen_model(Some(given), configured, default_dir)),
{
}

/// The files of the download, one by one: the quantized model, which is kept
/// under the model's plain name, the normalisation, the tokens and the
/// configuration.
pub proof fn law_files_of_the_download()
    ensures
        model_file_names().len() == 4,
        model_file_names()[0] == ("model_quant.onnx"@, "model.onnx"@, "~230 MB"@),
        model_file_names()[1] == ("am.mvn"@, "am.mvn"@, "~11 KB"@),
        model_file_names()[2] == ("tokens.json"@, "tokens.json"@, "~344 KB"@),
        model_file_names()[3] == ("config.yaml"@, "config.yaml"@, "~2 KB"@),
{
}

/// A file's address is its name at the source, after the source's address and a
/// slash.
pub proof fn law_address_of_a_file(remote: Seq<char>, f: ModelFile)
    ensures
        file_url(remote)
            == "https://huggingface.co/haixuantao/SenseVoiceSmall-onnx/resolve/main/"@ + remote,
        file_view(f) == (f.remote@, f.local@, f.size@),
{
    reveal_strlit("https://huggingface.co/haixuantao/SenseVoiceSmall-onnx/resolve/main/");
    reveal_strlit("https://huggingface.co/haixuantao/SenseVoiceSmall-onnx/resolve/main");
    reveal_strlit("/");
    assert(MODEL_BASE@ + "/"@
        =~= "https://huggingface.co/haixuantao/SenseVoiceSmall-onnx/resolve/main/"@);
}

/// Without a directory given on the command line, the configured one is used
/// where it holds a usable model and does not belong to another program.
/// Otherwise it is the default one, after a download where it holds no usable
/// model, and only then is it written to the configuration.
pub proof fn law_choice_of_the_model(dir: String, ready: bool, default_dir: String, there: bool)
    ensures
        ({
            let source = chosen_model(None, Some((dir, ready)), (default_dir, there));
            let usable = ready && !text::has_text(dir@, "Shandianshuo"@) && !text::has_text(
                dir@,
                "shandianshuo"@,
            );
            &&& usable ==> source == ModelSource::Configured(dir)
            &&& !usable && there ==> source == ModelSource::Installed(default_dir)
            &&& !usable && !there ==> source == ModelSource::Download(default_dir)
            &&& saved_source(source) <==> !usable
        }),
        ({
            let source = chosen_model(None, None, (default_dir, there));
            &&& there ==> source == ModelSource::Installed(default_dir)
            &&& !there ==> source == ModelSource::Download(default_dir)
            &&& saved_source(source)
        }),
{
}

}
