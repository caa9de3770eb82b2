//! Conversion decisions: the checks made before the encoder starts, the
//! arguments it is started with, how its progress lines are read, and what
//! follows its exit.
use vstd::prelude::*;
use crate::sequence::SequenceInfo;
use crate::text::{decimal, push_decimal, push_str};

verus! {

/// What the caller asks to have converted.
pub struct ConversionRequest {
    pub sequence_info: SequenceInfo,
    pub framerate: u32,
    pub width: u32,
    pub loop_forever: bool,
    pub output_path: String,
}

/// Everything one run of the encoder needs.
pub struct ConversionConfig {
    pub input_pattern: String,
    pub start_number: usize,
    pub framerate: u32,
    pub width: u32,
    pub loop_forever: bool,
    pub output_path: String,
    pub directory: String,
    pub total_frames: usize,
}

/// Where the encoder was found, and what it says of its version.
pub struct FfmpegInfo {
    pub installed: bool,
    pub version: Option<String>,
    pub path: Option<String>,
}

/// A process to start: the program, the directory it runs in, and its
/// arguments in order.
pub struct Invocation {
    pub program: String,
    pub directory: String,
    pub arguments: Vec<String>,
}

pub enum ConversionError {
    EncoderMissing,
    InvalidFramerate,
    InvalidWidth,
    /// The process could not be started; the system's reason.
    LaunchFailed(String),
    /// Waiting for the process failed; the system's reason.
    WaitFailed(String),
    /// The encoder exited with a failure status.
    EncoderFailed,
}

pub open spec fn framerate_ok(framerate: u32) -> bool {
    1 <= framerate <= 120
}

pub open spec fn width_ok(width: u32) -> bool {
    1 <= width <= 10000
}

pub open spec fn encoder_found(encoder: FfmpegInfo) -> bool {
    encoder.installed && encoder.path is Some
}

/// The first check that a request fails, in the order encoder, frame rate,
/// width; `None` when it passes them all.
pub open spec fn rejection(request: ConversionRequest, encoder: FfmpegInfo) -> Option<
    ConversionError,
> {
    if !encoder_found(encoder) {
        Some(ConversionError::EncoderMissing)
    } else if !framerate_ok(request.framerate) {
        Some(ConversionError::InvalidFramerate)
    } else if !width_ok(request.width) {
        Some(ConversionError::InvalidWidth)
    } else {
        None
    }
}

/// The filter graph: scale to the width keeping the aspect ratio, split the
/// stream, build a palette that keeps a transparent slot from one copy, and
/// apply it to the other.
pub open spec fn filter_graph(width: nat) -> Seq<char> {
    "scale="@ + decimal(width)
        + ":-1:flags=lanczos,split[s0][s1];[s0]palettegen=reserve_transparent=1[p];[s1][p]paletteuse=alpha_threshold=128"@
}

/// The encoder's arguments, in order.
pub open spec fn arguments_of(c: ConversionConfig) -> Seq<Seq<char>> {
    seq![
        "-framerate"@,
        decimal(c.framerate as nat),
        "-start_number"@,
        decimal(c.start_number as nat),
        "-i"@,
        c.input_pattern@,
        "-vf"@,
        filter_graph(c.width as nat),
        "-gifflags"@,
        "-offsetting"@,
        "-loop"@,
        if c.loop_forever {
            "0"@
        } else {
            "-1"@
        },
        "-y"@,
        c.output_path@,
    ]
}

pub open spec fn string_views(v: Seq<String>) -> Seq<Seq<char>> {
    v.map_values(|s: String| s@)
}

/// The configuration a request describes.
pub open spec fn config_of(request: ConversionRequest) -> ConversionConfig {
    ConversionConfig {
        input_pattern: request.sequence_info.pattern,
        start_number: request.sequence_info.start_number,
        framerate: request.framerate,
        width: request.width,
        loop_forever: request.loop_forever,
        output_path: request.output_path,
        directory: request.sequence_info.directory,
        total_frames: request.sequence_info.frame_count,
    }
}

impl ConversionError {
    pub open spec fn text(&self) -> Seq<char> {
        match self {
            ConversionError::EncoderMissing => "FFmpeg is not installed or not found in PATH"@,
            ConversionError::InvalidFramerate => "Framerate must be between 1 and 120"@,
            ConversionError::InvalidWidth => "Width must be between 1 and 10000"@,
            ConversionError::LaunchFailed(reason) => "Failed to start FFmpeg: "@ + reason@,
            ConversionError::WaitFailed(reason) => "FFmpeg execution error: "@ + reason@,
            ConversionError::EncoderFailed => "FFmpeg conversion failed"@,
        }
    }

    /// The message shown to the user.
    pub fn message(&self) -> (r: String)
        ensures
            r@ == self.text(),
    {
        match self {
            ConversionError::EncoderMissing => "FFmpeg is not installed or not found in PATH".to_owned(),
            ConversionError::InvalidFramerate => "Framerate must be between 1 and 120".to_owned(),
            ConversionError::InvalidWidth => "Width must be between 1 and 10000".to_owned(),
            ConversionError::LaunchFailed(reason) => {
                let mut r = "Failed to start FFmpeg: ".to_owned();
                push_str(&mut r, reason.as_str());
                r
            },
            ConversionError::WaitFailed(reason) => {
                let mut r = "FFmpeg execution error: ".to_owned();
                push_str(&mut r, reason.as_str());
                r
            },
            ConversionError::EncoderFailed => "FFmpeg conversion failed".to_owned(),
        }
    }
}

/// The configuration for a request.
pub fn build_config(request: ConversionRequest) -> (r: ConversionConfig)
    ensures
        r == config_of(request),
{
    ConversionConfig {
        input_pattern: request.sequence_info.pattern,
        start_number: request.sequence_info.start_number,
        framerate: request.framerate,
        width: request.width,
        loop_forever: request.loop_forever,
        output_path: request.output_path,
        directory: request.sequence_info.directory,
        total_frames: request.sequence_info.frame_count,
    }
}

fn decimal_string(n: u128) -> (r: String)
    ensures
        r@ == decimal(n as nat),
{
    let mut r = String::new();
    push_decimal(&mut r, n);
    assert(r@ =~= decimal(n as nat));
    r
}

/// The encoder's arguments for a configuration.
pub fn command_arguments(config: &ConversionConfig) -> (r: Vec<String>)
    ensures
        string_views(r@) == arguments_of(*config),
{
    let mut filter = "scale=".to_owned();
    push_decimal(&mut filter, config.width as u128);
    push_str(
        &mut filter,
        ":-1:flags=lanczos,split[s0][s1];[s0]palettegen=reserve_transparent=1[p];[s1][p]paletteuse=alpha_threshold=128",
    );
    let r = vec![
        "-framerate".to_owned(),
        decimal_string(config.framerate as u128),
        "-start_number".to_owned(),
        decimal_string(config.start_number as u128),
        "-i".to_owned(),
        config.input_pattern.clone(),
        "-vf".to_owned(),
        filter,
        "-gifflags".to_owned(),
        "-offsetting".to_owned(),
        "-loop".to_owned(),
        if config.loop_forever {
            "0".to_owned()
        } else {
            "-1".to_owned()
        },
        "-y".to_owned(),
        config.output_path.clone(),
    ];
    assert(string_views(r@) =~= arguments_of(*config));
    r
}

/// Checks a request against the encoder that was found, and when it passes
/// gives the process to start and the configuration it runs with. No process
/// is described for a request that fails a check.
pub fn prepare_conversion(request: ConversionRequest, encoder: &FfmpegInfo) -> (r: Result<
    (Invocation, ConversionConfig),
    ConversionError,
>)
    ensures
        r is Err <==> rejection(request, *encoder) is Some,
        r matches Err(e) ==> rejection(request, *encoder) == Some(e),
        r matches Ok((inv, config)) ==> {
            &&& config == config_of(request)
            &&& inv.program@ == encoder.path->0@
            &&& inv.directory@ == request.sequence_info.directory@
            &&& string_views(inv.arguments@) == arguments_of(config)
        },
{
    let program = match &encoder.path {
        Some(p) => {
            if !encoder.installed {
                return Err(ConversionError::EncoderMissing);
            }
            p.clone()
        },
        None => {
            return Err(ConversionError::EncoderMissing);
        },
    };
    if request.framerate == 0 || request.framerate > 120 {
        return Err(ConversionError::InvalidFramerate);
    }
    if request.width == 0 || request.width > 10000 {
        return Err(ConversionError::InvalidWidth);
    }
    let config = build_config(request);
    let arguments = command_arguments(&config);
    let directory = config.directory.clone();
    Ok((Invocation { program, directory, arguments }, config))
}

/// A request with a frame rate outside 1 to 120 is refused, so no process is
/// described for it.
pub proof fn lemma_framerate_refused(request: ConversionRequest, encoder: FfmpegInfo)
    requires
        request.framerate == 0 || request.framerate > 120,
    ensures
        rejection(request, encoder) is Some,
        encoder_found(encoder) ==> rejection(request, encoder) == Some(
            ConversionError::InvalidFramerate,
        ),
{
}

/// How a run of the encoder ended.
pub enum EncoderOutcome {
    /// It could not be started; the system's reason.
    LaunchFailed(String),
    /// Waiting for it failed; the system's reason.
    WaitFailed(String),
    /// It exited, successfully or not.
    Exited(bool),
}

/// What to do once the encoder has ended: whether to remove the output
/// file the encoder may have begun, and what the conversion reports.
pub struct Completion {
    pub remove_output: bool,
    pub result: Result<(), ConversionError>,
}

pub open spec fn completion_of(outcome: EncoderOutcome) -> Completion {
    match outcome {
        EncoderOutcome::LaunchFailed(reason) => Completion {
            remove_output: false,
            result: Err(ConversionError::LaunchFailed(reason)),
        },
        EncoderOutcome::WaitFailed(reason) => Completion {
            remove_output: false,
            result: Err(ConversionError::WaitFailed(reason)),
        },
        EncoderOutcome::Exited(success) => if success {
            Completion { remove_output: false, result: Ok(()) }
        } else {
            Completion { remove_output: true, result: Err(ConversionError::EncoderFailed) }
        },
    }
}

/// Decides what follows the encoder's end: success only on a successful
/// exit; the output file is removed when the encoder ran and exited with a
/// failure status, and left alone when it could not be started or waited for.
pub fn finish_conversion(outcome: EncoderOutcome) -> (r: Completion)
    ensures
        r == completion_of(outcome),
{
    match outcome {
        EncoderOutcome::LaunchFailed(reason) => Completion {
            remove_output: false,
            result: Err(ConversionError::LaunchFailed(reason)),
        },
        EncoderOutcome::WaitFailed(reason) => Completion {
            remove_output: false,
            result: Err(ConversionError::WaitFailed(reason)),
        },
        EncoderOutcome::Exited(success) => if success {
            Completion { remove_output: false, result: Ok(()) }
        } else {
            Completion { remove_output: true, result: Err(ConversionError::EncoderFailed) }
        },
    }
}

/// An encoder that exits with a failure status leaves no output behind: the
/// output file is removed and the conversion fails.
pub proof fn lemma_failed_exit_removes_output()
    ensures
        completion_of(EncoderOutcome::Exited(false)).remove_output,
        completion_of(EncoderOutcome::Exited(false)).result == Err::<(), ConversionError>(
            ConversionError::EncoderFailed,
        ),
{
}

/// The output is removed exactly when the encoder exited with a failure
/// status; the conversion succeeds exactly when it exited successfully.
pub proof fn lemma_output_removed_iff_failed_exit(outcome: EncoderOutcome)
    ensures
        completion_of(outcome).remove_output <==> outcome == EncoderOutcome::Exited(false),
        completion_of(outcome).remove_output ==> completion_of(outcome).result is Err,
        completion_of(outcome).result is Ok <==> outcome == EncoderOutcome::Exited(true),
{
}

} // verus!
