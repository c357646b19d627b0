//! Resolution of the command that runs the recognizer, the argument list of
//! a run, and the outcome of a run from what the process reported.

use vstd::prelude::*;
use crate::format::{decimal, decimal_string, fixed4, fixed4_string};
use crate::normalize::{expand_home, expand_home_dir, languages_of, parse_languages, strings_view};
use crate::ocr::{OcrLine, lines_view, parse_easyocr_output, records_of};
use crate::settings::{OcrConfig, decoder_name};

verus! {

/// A program and the arguments that go before any of a run's own.
#[derive(Debug, Clone)]
pub struct ResolvedCommand {
    pub program: String,
    pub prefix: Vec<String>,
}

impl View for ResolvedCommand {
    type V = (Seq<char>, Seq<Seq<char>>);

    open spec fn view(&self) -> (Seq<char>, Seq<Seq<char>>) {
        (self.program@, strings_view(self.prefix@))
    }
}

/// The arguments that run the recognizer as a module of an interpreter.
pub open spec fn module_prefix() -> Seq<Seq<char>> {
    seq!["-m"@, "easyocr.cli"@]
}

/// The commands to probe, in order. An explicit path is tried as the tool
/// itself and as an interpreter, and nothing else; without one, the tool on
/// the search path, then two interpreters.
pub open spec fn candidates(exe: Seq<char>) -> Seq<(Seq<char>, Seq<Seq<char>>)> {
    if exe.len() > 0 {
        seq![(exe, Seq::empty()), (exe, module_prefix())]
    } else {
        seq![
            ("easyocr"@, Seq::empty()),
            ("python3"@, module_prefix()),
            ("python"@, module_prefix()),
        ]
    }
}

/// The index of the first `true` in `p`.
pub open spec fn first_true(p: Seq<bool>) -> Option<int>
    decreases p.len(),
{
    if p.len() == 0 {
        None
    } else {
        match first_true(p.drop_last()) {
            Some(i) => Some(i),
            None => if p.last() {
                Some(p.len() - 1)
            } else {
                None
            },
        }
    }
}

/// The next step of resolution.
#[derive(Debug, Clone)]
pub enum ResolveStep {
    /// Probe this command and call again with its result appended.
    Probe(ResolvedCommand),
    /// This command passed its probe.
    Resolved(ResolvedCommand),
    /// Every candidate failed its probe.
    NotFound,
}

pub enum StepView {
    Probe((Seq<char>, Seq<Seq<char>>)),
    Resolved((Seq<char>, Seq<Seq<char>>)),
    NotFound,
}

impl View for ResolveStep {
    type V = StepView;

    open spec fn view(&self) -> StepView {
        match self {
            ResolveStep::Probe(c) => StepView::Probe(c@),
            ResolveStep::Resolved(c) => StepView::Resolved(c@),
            ResolveStep::NotFound => StepView::NotFound,
        }
    }
}

/// The step after the probes `probes` of the candidates for `exe`, in
/// order: the first candidate that passed, else the next one to probe, else
/// none found.
pub open spec fn resolve_view(exe: Seq<char>, probes: Seq<bool>) -> StepView {
    let c = candidates(exe);
    let tried = if probes.len() <= c.len() {
        probes
    } else {
        probes.subrange(0, c.len() as int)
    };
    match first_true(tried) {
        Some(i) => StepView::Resolved(c[i]),
        None => if probes.len() < c.len() {
            StepView::Probe(c[probes.len() as int])
        } else {
            StepView::NotFound
        },
    }
}

fn module_prefix_vec() -> (r: Vec<String>)
    ensures
        strings_view(r@) == module_prefix(),
{
    let mut r: Vec<String> = Vec::new();
    r.push("-m".to_owned());
    r.push("easyocr.cli".to_owned());
    assert(strings_view(r@) =~= module_prefix());
    r
}

fn candidate(exe: &str, i: usize) -> (r: ResolvedCommand)
    requires
        i < candidates(exe@).len(),
    ensures
        r@ == candidates(exe@)[i as int],
{
    let empty: Vec<String> = Vec::new();
    assert(strings_view(empty@) =~= Seq::<Seq<char>>::empty());
    if !exe.is_empty() {
        if i == 0 {
            ResolvedCommand { program: exe.to_owned(), prefix: empty }
        } else {
            ResolvedCommand { program: exe.to_owned(), prefix: module_prefix_vec() }
        }
    } else if i == 0 {
        ResolvedCommand { program: "easyocr".to_owned(), prefix: empty }
    } else if i == 1 {
        ResolvedCommand { program: "python3".to_owned(), prefix: module_prefix_vec() }
    } else {
        ResolvedCommand { program: "python".to_owned(), prefix: module_prefix_vec() }
    }
}

/// Decides the next step of resolving the recognizer's command, given the
/// results of the probes made so far, in the order of the candidates. A
/// probe runs the command with `--help` and succeeds when it exits with
/// status zero.
pub fn resolve_easyocr_cmd(configured_exe: &str, probes: &Vec<bool>) -> (r: ResolveStep)
    ensures
        r@ == resolve_view(configured_exe@, probes@),
{
    let n: usize = if configured_exe.is_empty() {
        3
    } else {
        2
    };
    let ghost c = candidates(configured_exe@);
    let mut i: usize = 0;
    assert(probes@.subrange(0, 0) =~= Seq::<bool>::empty());
    while i < probes.len() && i < n
        invariant
            n == c.len(),
            c == candidates(configured_exe@),
            i <= probes.len(),
            i <= n,
            first_true(probes@.subrange(0, i as int)) is None,
        decreases n - i,
    {
        assert(probes@.subrange(0, i + 1).drop_last() =~= probes@.subrange(0, i as int));
        if probes[i] {
            proof {
                let tried = if probes@.len() <= c.len() {
                    probes@
                } else {
                    probes@.subrange(0, c.len() as int)
                };
                assert(tried.subrange(0, i + 1) =~= probes@.subrange(0, i + 1));
                lemma_first_true_prefix(tried, i + 1);
            }
            return ResolveStep::Resolved(candidate(configured_exe, i));
        }
        i = i + 1;
    }
    proof {
        if probes@.len() <= c.len() {
            assert(probes@.subrange(0, i as int) =~= probes@);
        } else {
            assert(probes@.subrange(0, c.len() as int) =~= probes@.subrange(0, i as int));
        }
    }
    if probes.len() < n {
        ResolveStep::Probe(candidate(configured_exe, probes.len()))
    } else {
        ResolveStep::NotFound
    }
}

/// A first `true` found in a prefix is the first in the whole.
proof fn lemma_first_true_prefix(p: Seq<bool>, n: int)
    requires
        0 <= n <= p.len(),
        first_true(p.subrange(0, n)) is Some,
    ensures
        first_true(p) == first_true(p.subrange(0, n)),
    decreases p.len() - n,
{
    if n < p.len() {
        assert(p.subrange(0, n + 1).drop_last() =~= p.subrange(0, n));
        lemma_first_true_prefix(p, n + 1);
    } else {
        assert(p.subrange(0, n) =~= p);
    }
}

/// How the tool reads a flag's boolean value.
pub open spec fn bool_word(b: bool) -> Seq<char> {
    if b {
        "True"@
    } else {
        "False"@
    }
}

/// Image, hardware, decoder and batch arguments.
#[verifier::opaque]
pub open spec fn head_args(cfg: OcrConfig, image: Seq<char>) -> Seq<Seq<char>> {
    seq![
        "-f"@,
        image,
        "--gpu"@,
        bool_word(cfg.gpu),
        "--workers"@,
        decimal(cfg.workers as nat),
        "--decoder"@,
        decoder_name(cfg.decoder),
        "--beamWidth"@,
        decimal(cfg.beam_width as nat),
        "--batch_size"@,
        decimal(cfg.batch_size as nat),
    ]
}

/// The five thresholds, with four decimal places.
#[verifier::opaque]
pub open spec fn threshold_args(cfg: OcrConfig) -> Seq<Seq<char>> {
    seq![
        "--text_threshold"@,
        fixed4(cfg.text_threshold as int),
        "--low_text"@,
        fixed4(cfg.low_text as int),
        "--link_threshold"@,
        fixed4(cfg.link_threshold as int),
        "--contrast_ths"@,
        fixed4(cfg.contrast_ths as int),
        "--adjust_contrast"@,
        fixed4(cfg.adjust_contrast as int),
    ]
}

/// Minimum size, paragraph and quantization flags, margin and full detail.
#[verifier::opaque]
pub open spec fn tail_args(cfg: OcrConfig) -> Seq<Seq<char>> {
    seq![
        "--min_size"@,
        decimal(cfg.min_size as nat),
        "--paragraph"@,
        bool_word(cfg.paragraph),
        "--quantize"@,
        bool_word(cfg.quantize),
        "--add_margin"@,
        fixed4(cfg.add_margin as int),
        "--detail"@,
        "1"@,
    ]
}

/// The model directory, home-expanded, where one is set.
#[verifier::opaque]
pub open spec fn model_args(cfg: OcrConfig, home: Option<Seq<char>>) -> Seq<Seq<char>> {
    if cfg.model_storage_directory@.len() > 0 {
        seq!["--model_storage_directory"@, expand_home(cfg.model_storage_directory@, home)]
    } else {
        Seq::empty()
    }
}

/// The tool's arguments for a run of `cfg` on the image at `image`, where
/// `home` is the home directory: languages, image, hardware, decoder, batch
/// size, the thresholds with four decimal places, minimum size, paragraph
/// and quantization flags, margin, full detail, and the model directory
/// where one is set.
pub open spec fn tool_args(cfg: OcrConfig, image: Seq<char>, home: Option<Seq<char>>) -> Seq<
    Seq<char>,
> {
    seq!["-l"@] + languages_of(cfg.languages@) + head_args(cfg, image) + threshold_args(cfg)
        + tail_args(cfg) + model_args(cfg, home)
}

pub open spec fn str_option_view(o: Option<&str>) -> Option<Seq<char>> {
    match o {
        Some(s) => Some(s@),
        None => None,
    }
}

fn push_arg(args: &mut Vec<String>, a: String)
    ensures
        strings_view(final(args)@) == strings_view(old(args)@).push(a@),
{
    let ghost before = args@;
    args.push(a);
    assert(strings_view(args@) =~= strings_view(before).push(a@));
}

fn push_args(args: &mut Vec<String>, more: &Vec<String>)
    ensures
        strings_view(final(args)@) == strings_view(old(args)@) + strings_view(more@),
{
    let ghost start = strings_view(args@);
    let mut i: usize = 0;
    while i < more.len()
        invariant
            i <= more.len(),
            strings_view(args@) == start + strings_view(more@).subrange(0, i as int),
        decreases more.len() - i,
    {
        push_arg(args, more[i].clone());
        assert(strings_view(more@).subrange(0, i + 1) =~= strings_view(more@).subrange(
            0,
            i as int,
        ).push(more@[i as int]@));
        i = i + 1;
    }
    assert(strings_view(more@).subrange(0, more.len() as int) =~= strings_view(more@));
}

fn bool_arg(b: bool) -> (r: String)
    ensures
        r@ == bool_word(b),
{
    if b {
        "True".to_owned()
    } else {
        "False".to_owned()
    }
}

fn build_head(config: &OcrConfig, image_path: &str) -> (r: Vec<String>)
    ensures
        strings_view(r@) == head_args(*config, image_path@),
{
    let mut args: Vec<String> = Vec::new();
    reveal(head_args);
    push_arg(&mut args, "-f".to_owned());
    push_arg(&mut args, image_path.to_owned());
    push_arg(&mut args, "--gpu".to_owned());
    push_arg(&mut args, bool_arg(config.gpu));
    push_arg(&mut args, "--workers".to_owned());
    push_arg(&mut args, decimal_string(config.workers as u64));
    push_arg(&mut args, "--decoder".to_owned());
    push_arg(&mut args, config.decoder.as_str().to_owned());
    push_arg(&mut args, "--beamWidth".to_owned());
    push_arg(&mut args, decimal_string(config.beam_width as u64));
    push_arg(&mut args, "--batch_size".to_owned());
    push_arg(&mut args, decimal_string(config.batch_size as u64));
    assert(strings_view(args@) =~= head_args(*config, image_path@));
    args
}

fn build_thresholds(config: &OcrConfig) -> (r: Vec<String>)
    ensures
        strings_view(r@) == threshold_args(*config),
{
    let mut args: Vec<String> = Vec::new();
    reveal(threshold_args);
    push_arg(&mut args, "--text_threshold".to_owned());
    push_arg(&mut args, fixed4_string(config.text_threshold));
    push_arg(&mut args, "--low_text".to_owned());
    push_arg(&mut args, fixed4_string(config.low_text));
    push_arg(&mut args, "--link_threshold".to_owned());
    push_arg(&mut args, fixed4_string(config.link_threshold));
    push_arg(&mut args, "--contrast_ths".to_owned());
    push_arg(&mut args, fixed4_string(config.contrast_ths));
    push_arg(&mut args, "--adjust_contrast".to_owned());
    push_arg(&mut args, fixed4_string(config.adjust_contrast));
    assert(strings_view(args@) =~= threshold_args(*config));
    args
}

fn build_tail(config: &OcrConfig, home: Option<&str>) -> (r: Vec<String>)
    ensures
        strings_view(r@) == tail_args(*config) + model_args(*config, str_option_view(home)),
{
    let mut args: Vec<String> = Vec::new();
    reveal(tail_args);
    reveal(model_args);
    push_arg(&mut args, "--min_size".to_owned());
    push_arg(&mut args, decimal_string(config.min_size as u64));
    push_arg(&mut args, "--paragraph".to_owned());
    push_arg(&mut args, bool_arg(config.paragraph));
    push_arg(&mut args, "--quantize".to_owned());
    push_arg(&mut args, bool_arg(config.quantize));
    push_arg(&mut args, "--add_margin".to_owned());
    push_arg(&mut args, fixed4_string(config.add_margin));
    push_arg(&mut args, "--detail".to_owned());
    push_arg(&mut args, "1".to_owned());
    let ghost t = strings_view(args@);
    assert(t =~= tail_args(*config));
    if !config.model_storage_directory.as_str().is_empty() {
        push_arg(&mut args, "--model_storage_directory".to_owned());
        push_arg(&mut args, expand_home_dir(config.model_storage_directory.as_str(), home));
    }
    assert(strings_view(args@) =~= t + model_args(*config, str_option_view(home)));
    args
}

/// The full argument list of a run of `config` on the image at `image_path`
/// through `cmd`: the command's prefix, then the tool's arguments. `home` is
/// the home directory, for a model directory that starts with `~`.
pub fn build_ocr_args(
    cmd: &ResolvedCommand,
    config: &OcrConfig,
    image_path: &str,
    home: Option<&str>,
) -> (r: Vec<String>)
    ensures
        strings_view(r@) == strings_view(cmd.prefix@) + tool_args(
            *config,
            image_path@,
            str_option_view(home),
        ),
{
    let mut args: Vec<String> = Vec::new();
    assert(strings_view(args@) =~= Seq::<Seq<char>>::empty());
    push_args(&mut args, &cmd.prefix);
    push_arg(&mut args, "-l".to_owned());
    let ghost a1 = strings_view(args@);
    let langs = parse_languages(config.languages.as_str());
    push_args(&mut args, &langs);
    let ghost a2 = strings_view(args@);
    let head = build_head(config, image_path);
    push_args(&mut args, &head);
    let ghost a3 = strings_view(args@);
    let thresholds = build_thresholds(config);
    push_args(&mut args, &thresholds);
    let ghost a4 = strings_view(args@);
    let tail = build_tail(config, home);
    push_args(&mut args, &tail);
    let ghost cfg = *config;
    let ghost hv = str_option_view(home);
    let ghost l = languages_of(cfg.languages@);
    let ghost h = head_args(cfg, image_path@);
    let ghost t = threshold_args(cfg);
    let ghost m = tail_args(cfg) + model_args(cfg, hv);
    assert(a1 =~= strings_view(cmd.prefix@) + seq!["-l"@]);
    assert(strings_view(args@) == a1 + l + h + t + m);
    assert(tool_args(cfg, image_path@, hv) =~= seq!["-l"@] + l + h + t + m);
    assert(strings_view(args@) =~= strings_view(cmd.prefix@) + (seq!["-l"@] + l + h + t + m));
    args
}

/// The outcome of a recognition run: the records, in the order of the
/// output's lines, or a diagnostic; never both.
#[derive(Debug)]
pub struct OcrResult {
    pub lines: Vec<OcrLine>,
    pub error: Option<String>,
}

/// What each diagnostic about a missing tool ends with.
pub open spec fn install_hint() -> Seq<char> {
    "\n\nMake sure EasyOCR is installed:\n  pip install easyocr"@
}

/// The diagnostic when no command could be resolved for `exe`.
pub open spec fn not_found_text(exe: Seq<char>) -> Seq<char> {
    "EasyOCR command not found (tried "@ + (if exe.len() == 0 {
        "'easyocr' and 'python -m easyocr.cli'"@
    } else {
        "'"@ + exe + "'"@
    }) + ")."@ + install_hint()
}

/// The diagnostic when `program` could not be started, for the reason that
/// the system gave.
pub open spec fn spawn_failure_text(program: Seq<char>, reason: Seq<char>) -> Seq<char> {
    "Failed to run '"@ + program + "': "@ + reason + install_hint()
}

/// The diagnostic when the tool exited with a failure status.
pub open spec fn exit_failure_text(stderr: Seq<char>, stdout: Seq<char>) -> Seq<char> {
    "EasyOCR exited with error:\n"@ + stderr + "\n"@ + stdout
}

fn with_install_hint(mut s: String) -> (r: String)
    ensures
        r@ == s@ + install_hint(),
{
    s.append("\n\nMake sure EasyOCR is installed:\n  pip install easyocr");
    s
}

/// The diagnostic when no command could be resolved for `configured_exe`.
pub fn not_found_message(configured_exe: &str) -> (r: String)
    ensures
        r@ == not_found_text(configured_exe@),
{
    let mut m = "EasyOCR command not found (tried ".to_owned();
    if configured_exe.is_empty() {
        m.append("'easyocr' and 'python -m easyocr.cli'");
    } else {
        m.append("'");
        m.append(configured_exe);
        m.append("'");
    }
    m.append(").");
    let r = with_install_hint(m);
    assert(r@ =~= not_found_text(configured_exe@));
    r
}

/// The diagnostic when `program` could not be started for `reason`.
pub fn spawn_failure_message(program: &str, reason: &str) -> (r: String)
    ensures
        r@ == spawn_failure_text(program@, reason@),
{
    let mut m = "Failed to run '".to_owned();
    m.append(program);
    m.append("': ");
    m.append(reason);
    let r = with_install_hint(m);
    assert(r@ =~= spawn_failure_text(program@, reason@));
    r
}

impl OcrResult {
    /// A run that ended in the diagnostic `message`.
    pub fn failure(message: String) -> (r: OcrResult)
        ensures
            r.lines@.len() == 0,
            r.error == Some(message),
    {
        OcrResult { lines: Vec::new(), error: Some(message) }
    }
}

/// The outcome of a run whose process exited, successfully or not, having
/// written `stdout` and `stderr`: the records of `stdout` on success, else a
/// diagnostic with both streams.
pub fn run_outcome(exit_success: bool, stdout: &str, stderr: &str) -> (r: OcrResult)
    ensures
        exit_success ==> lines_view(r.lines@) == records_of(stdout@) && r.error is None,
        !exit_success ==> r.lines@.len() == 0 && (r.error matches Some(e) && e@
            == exit_failure_text(stderr@, stdout@)),
{
    if exit_success {
        OcrResult { lines: parse_easyocr_output(stdout), error: None }
    } else {
        let mut m = "EasyOCR exited with error:\n".to_owned();
        m.append(stderr);
        m.append("\n");
        m.append(stdout);
        assert(m@ =~= exit_failure_text(stderr@, stdout@));
        OcrResult::failure(m)
    }
}

/// An explicit path whose two probes, as the tool and as an interpreter,
/// both failed resolves to nothing, whatever is installed elsewhere: no other
/// command is ever a candidate for it.
pub proof fn lemma_explicit_path_not_found(exe: Seq<char>, probes: Seq<bool>)
    requires
        exe.len() > 0,
        probes.len() >= 2,
        !probes[0],
        !probes[1],
    ensures
        resolve_view(exe, probes) == StepView::NotFound,
        forall|i: int| 0 <= i < candidates(exe).len() ==> (#[trigger] candidates(exe)[i]).0 == exe,
{
    let tried = probes.subrange(0, 2);
    let t1 = tried.drop_last();
    assert(t1.drop_last() =~= Seq::<bool>::empty());
    assert(first_true(t1.drop_last()) is None);
    assert(t1.last() == probes[0]);
    assert(first_true(t1) is None);
    assert(tried.last() == probes[1]);
    assert(first_true(tried) is None);
    if probes.len() == 2 {
        assert(tried =~= probes);
    }
}

/// Whether the recognizer can be reached, as far as is known.
#[derive(Debug, Clone, Copy, PartialEq, Eq, Structural)]
pub enum Availability {
    /// A resolution is under way.
    Checking,
    Available,
    Unavailable,
}

impl Availability {
    /// The state once a resolution has completed; `found` tells whether it
    /// resolved a command.
    pub fn after_check(found: bool) -> (r: Availability)
        ensures
            r == (if found {
                Availability::Available
            } else {
                Availability::Unavailable
            }),
    {
        if found {
            Availability::Available
        } else {
            Availability::Unavailable
        }
    }
}

} // verus!
