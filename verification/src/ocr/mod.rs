//! A recognition pass over one capture.
//!
//! The pass alternates between this crate and the caller. The crate decides
//! what is to be done next and says so in an [`Action`]; the caller blurs the
//! image or runs a network session and reports what came back in an
//! [`Event`]. The sessions and the tokenizer belong to the caller and are
//! never seen here, so a pass can be followed and tested without them.

pub mod manga_ocr;
pub mod pp_ocr;

use crate::error::Error;
use crate::geometry::{all_fit, are_blank_boxes, Scale};
use crate::models::OcrBox;
use crate::ocr::manga_ocr::{
    encoder_input, encoder_planes, generated_ids, is_logits, lemma_step_keeps_sequence,
    status_of, stepped, text_of, DecodeStatus, TokenSequence, MAX_LENGTH, SKIP_SPECIAL_TOKENS,
    START_TOKEN_ID, TARGET_SIZE,
};
use crate::ocr::pp_ocr::{
    aligned, binarize, binarized, detect, detected, detector_input, detector_planes,
    downscale_to_gray, downscaled_gray, is_blank, is_heatmap, is_traceable, pad_to_stride,
    MAX_RESOLUTION,
};
use crate::raster::{crop_imm, ColorImage, GrayImage, Image, Raster, RESAMPLING_LIMIT};
use vstd::prelude::*;
use vstd::string::StringExecFns;

verus! {

/// What the caller is to do next.
#[derive(Clone, Debug, PartialEq, Eq)]
pub enum Action {
    /// Blur the image with a Gaussian of standard deviation 1 and report the
    /// blurred intensities.
    Blur { image: GrayImage },
    /// Scale the samples to the unit interval, run the detector on them as a
    /// tensor of one batch, three channels, `height` rows and `width` columns,
    /// and report the heat-map.
    Detect { planes: Vec<u8>, width: u32, height: u32 },
    /// Normalize the samples channel by channel and run the encoder on them
    /// as a tensor of one batch, three channels and a square of
    /// [`TARGET_SIZE`].
    Encode { planes: Vec<u8> },
    /// Run the decoder on the encoder's output and these token ids, and
    /// report the logits.
    Decode { ids: Vec<i64> },
    /// Have the tokenizer turn these token ids into text, leaving special
    /// tokens out where `skip_special_tokens` holds, and report the outcome.
    Detokenize { tokens: Vec<u32>, skip_special_tokens: bool },
}

/// What the caller reports.
#[derive(Debug, PartialEq, Eq)]
pub enum Event {
    /// The blurred intensities, as single-precision bit patterns in
    /// row-major order.
    Blurred { levels: Vec<u32> },
    /// The detector's output: its shape and its scores, as single-precision
    /// bit patterns.
    Heatmap { shape: Vec<i64>, scores: Vec<u32> },
    /// The encoder has run; the caller keeps its output for the decoder.
    Encoded,
    /// The decoder's output: its shape and its logits, as single-precision
    /// bit patterns.
    Logits { shape: Vec<i64>, logits: Vec<u32> },
    /// The tokenizer's outcome: the text, or the message of its failure.
    Detokenized { outcome: Result<String, String> },
    /// A session failed.
    Failed { message: String },
}

/// Which report a pass is waiting for.
#[derive(Clone, Copy, Debug, PartialEq, Eq, Structural)]
pub enum Stage {
    /// The blurred intensities of the downscaled capture.
    Blurring,
    /// The heat-map of the preprocessed image.
    Detecting,
    /// The encoder's run on the current region.
    Encoding,
    /// The decoder's run on the current region.
    Decoding,
    /// The tokenizer's outcome for the current region.
    Detokenizing,
}

/// A recognition pass that has not ended.
#[derive(Clone, Debug, PartialEq, Eq)]
pub struct OcrRun {
    /// The capture; regions are cut from it.
    pub capture: ColorImage,
    pub stage: Stage,
    /// The sides of the downscaled capture.
    pub gray_width: u32,
    pub gray_height: u32,
    /// The detected regions, in the order of detection, without text.
    pub detected: Vec<OcrBox>,
    /// The regions that recognition has dealt with, in the same order.
    pub completed: Vec<OcrBox>,
    /// The token ids of the current region.
    pub tokens: TokenSequence,
}

/// How a pass goes on after a report.
#[derive(Debug, PartialEq, Eq)]
pub enum Progress {
    /// The pass goes on with the action.
    Next(OcrRun, Action),
    /// The pass has ended: with one box for each detected region, or with
    /// the failure that ended it.
    Finished(Result<Vec<OcrBox>, Error>),
}

/// The part of the capture that a box covers.
pub open spec fn region_image(capture: Raster, b: OcrBox) -> Raster {
    capture.color_crop(b.x as nat, b.y as nat, b.width as nat, b.height as nat)
}

/// The encoder's input for the region of a box, before normalization.
pub open spec fn region_input(capture: Raster, b: OcrBox) -> Seq<u8> {
    encoder_input(region_image(capture, b))
}

/// Cuts the region of a box from the capture. A box that reaches beyond the
/// capture is cut to it.
pub fn crop_box(capture: &ColorImage, region: &OcrBox) -> (out: ColorImage)
    requires
        capture.wf(),
        region.wf(),
    ensures
        out.wf(),
        out@ == region_image(capture@, *region),
        out.width <= capture.width,
        out.height <= capture.height,
{
    crop_imm(capture, region.x as u32, region.y as u32, region.width as u32, region.height as u32)
}

/// Whether `boxes` cover the same regions as the first of `detected`.
pub open spec fn follow(boxes: Seq<OcrBox>, detected: Seq<OcrBox>) -> bool {
    &&& boxes.len() <= detected.len()
    &&& forall|k: int| 0 <= k < boxes.len() ==> (#[trigger] boxes[k]).region() == detected[k].region()
}

impl OcrRun {
    /// The capture is well formed and within the limits of resampling, the
    /// downscaled sides are within the cap, and the boxes suit the stage:
    /// none before detection; afterwards at least one region is left, and
    /// the completed boxes cover the first of the detected regions.
    pub open spec fn wf(&self) -> bool {
        &&& is_resamplable(self.capture)
        &&& self.gray_width <= MAX_RESOLUTION
        &&& self.gray_height <= MAX_RESOLUTION
        &&& (self.stage != Stage::Blurring ==> 1 <= self.gray_width && 1 <= self.gray_height)
        &&& self.tokens.wf()
        &&& forall|k: int| 0 <= k < self.detected@.len() ==> (#[trigger] self.detected@[k]).wf()
        &&& match self.stage {
            Stage::Blurring | Stage::Detecting => self.detected@.len() == 0
                && self.completed@.len() == 0,
            Stage::Encoding | Stage::Decoding | Stage::Detokenizing => self.completed@.len()
                < self.detected@.len() && follow(self.completed@, self.detected@),
        }
    }

    /// Whether the pass is at work on a region.
    pub open spec fn has_region(&self) -> bool {
        self.stage == Stage::Encoding || self.stage == Stage::Decoding || self.stage
            == Stage::Detokenizing
    }

    /// The factor between the downscaled capture and the capture.
    pub open spec fn scale(&self) -> Scale {
        if self.gray_height > self.gray_width {
            Scale { numerator: self.capture.height, denominator: self.gray_height }
        } else {
            Scale { numerator: self.capture.width, denominator: self.gray_width }
        }
    }

    /// Whether `next` is this pass in another stage, with the same capture.
    pub open spec fn goes_on_as(&self, next: OcrRun, stage: Stage) -> bool {
        &&& next.wf()
        &&& next.stage == stage
        &&& next.capture == self.capture
        &&& next.gray_width == self.gray_width
        &&& next.gray_height == self.gray_height
    }
}

/// Whether a pass can be opened over a capture: its buffer holds three
/// samples per pixel, both sides are below [`RESAMPLING_LIMIT`], and it is
/// narrow enough for the buffers of the resampling to fit a vector.
pub open spec fn is_resamplable(capture: ColorImage) -> bool {
    &&& capture.wf()
    &&& capture.width < RESAMPLING_LIMIT
    &&& capture.height < RESAMPLING_LIMIT
    &&& 16 * (capture.width * MAX_RESOLUTION) <= isize::MAX
}

/// Whether `opened` is the opening of a pass over `capture`: the pass waits
/// for the blur of the downscaled capture.
pub open spec fn opens(capture: ColorImage, opened: (OcrRun, Action)) -> bool {
    &&& opened.0.wf()
    &&& opened.0.stage == Stage::Blurring
    &&& opened.0.capture == capture
    &&& opened.1 matches Action::Blur { image } && image.wf() && image@ == downscaled_gray(
        capture@,
    ) && image.width == opened.0.gray_width && image.height == opened.0.gray_height
}

/// Opens a pass over a capture: downscales it, reduces it to intensities and
/// asks for the blur.
pub fn run_ocr(capture: ColorImage) -> (out: (OcrRun, Action))
    requires
        is_resamplable(capture),
    ensures
        opens(capture, out),
{
    let gray = downscale_to_gray(&capture);
    let run = OcrRun {
        capture,
        stage: Stage::Blurring,
        gray_width: gray.width,
        gray_height: gray.height,
        detected: Vec::new(),
        completed: Vec::new(),
        tokens: TokenSequence::new(),
    };
    (run, Action::Blur { image: gray })
}

/// Opens a pass as [`run_ocr`] does, after testing what it asks of the
/// capture. `None` where the capture cannot be resampled.
pub fn try_run_ocr(capture: ColorImage) -> (out: Option<(OcrRun, Action)>)
    ensures
        out is Some <==> is_resamplable(capture),
        out matches Some(opened) ==> opens(capture, opened),
{
    assert(capture.width * capture.height <= 0xffff_ffff * 0xffff_ffff) by (nonlinear_arith)
        requires
            0 <= capture.width <= 0xffff_ffff,
            0 <= capture.height <= 0xffff_ffff,
    ;
    assert(capture.width * MAX_RESOLUTION <= 0xffff_ffff * 1920) by (nonlinear_arith)
        requires
            0 <= capture.width <= 0xffff_ffff,
            MAX_RESOLUTION == 1920,
    ;
    let samples: u128 = 3 * ((capture.width as u128) * (capture.height as u128));
    let buffers: u128 = 16 * ((capture.width as u128) * (MAX_RESOLUTION as u128));
    if capture.pixels.len() as u128 == samples && capture.width < RESAMPLING_LIMIT
        && capture.height < RESAMPLING_LIMIT && buffers <= isize::MAX as u128 {
        Some(run_ocr(capture))
    } else {
        None
    }
}

/// Asks for the encoder's run on the region that recognition has reached.
fn encode_current(run: OcrRun) -> (out: Progress)
    requires
        run.wf(),
        run.stage == Stage::Encoding,
    ensures
        out matches Progress::Next(next, Action::Encode { planes }) && next == run && planes@
            == region_input(run.capture@, run.detected@[run.completed@.len() as int]),
{
    let i = run.completed.len();
    let region = crop_box(&run.capture, &run.detected[i]);
    assert(region.width * TARGET_SIZE <= run.capture.width * MAX_RESOLUTION) by (nonlinear_arith)
        requires
            0 <= region.width <= run.capture.width,
            TARGET_SIZE <= MAX_RESOLUTION,
    ;
    let planes = encoder_planes(&region);
    Progress::Next(run, Action::Encode { planes })
}

impl OcrRun {
    /// How a pass that waits for the blur goes on with the blurred
    /// intensities.
    pub open spec fn blurred(&self, levels: Seq<u32>, out: Progress) -> bool {
        if levels.len() != self.gray_width * self.gray_height {
            out matches Progress::Finished(Err(e)) && e is Other
        } else if self.gray_width == 0 || self.gray_height == 0 {
            out matches Progress::Finished(Ok(boxes)) && boxes@.len() == 0
        } else {
            out matches Progress::Next(next, Action::Detect { planes, width, height })
                && self.goes_on_as(next, Stage::Detecting) && width == aligned(
                self.gray_width as int,
            ) && height == aligned(self.gray_height as int) && planes@ == detector_input(
                binarized(self.gray_width, self.gray_height, levels),
            )
        }
    }

    /// How a pass that waits for the detector goes on with the heat-map:
    /// it ends with what detection returns where that is an error or no box,
    /// and turns to the first region otherwise.
    pub open spec fn mapped(&self, shape: Seq<i64>, scores: Seq<u32>, out: Progress) -> bool {
        if !is_heatmap(shape, scores.len()) {
            out matches Progress::Finished(Err(e)) && e is Inference
        } else if is_blank(scores) {
            out matches Progress::Finished(Ok(boxes)) && boxes@.len() == 0
        } else if !is_traceable(scores.len() as int) || !all_fit(
            detected(shape, scores, self.scale()),
        ) {
            out matches Progress::Finished(Err(e)) && e is PostProcessing
        } else if detected(shape, scores, self.scale()).len() == 0 {
            out matches Progress::Finished(Ok(boxes)) && boxes@.len() == 0
        } else {
            out matches Progress::Next(next, Action::Encode { planes }) && self.goes_on_as(
                next,
                Stage::Encoding,
            ) && are_blank_boxes(next.detected@, detected(shape, scores, self.scale()))
                && next.completed@.len() == 0 && planes@ == region_input(
                self.capture@,
                next.detected@[0],
            )
        }
    }

    /// How a pass that waits for the encoder goes on.
    pub open spec fn encoded(&self, out: Progress) -> bool {
        out matches Progress::Next(next, Action::Decode { ids }) && self.goes_on_as(
            next,
            Stage::Decoding,
        ) && next.detected == self.detected && next.completed == self.completed && next.tokens@
            == seq![START_TOKEN_ID] && ids@ == seq![START_TOKEN_ID]
    }

    /// Whether `after` is `before` with one more box, which covers the region
    /// of `region` and carries `text`.
    pub open spec fn is_completion(
        after: Seq<OcrBox>,
        before: Seq<OcrBox>,
        region: OcrBox,
        text: Seq<char>,
    ) -> bool {
        &&& after.len() == before.len() + 1
        &&& forall|k: int| 0 <= k < before.len() ==> #[trigger] after[k] == before[k]
        &&& after[before.len() as int].region() == region.region()
        &&& after[before.len() as int].text@ == text
    }

    /// How a pass goes on once the current region is completed with `text`:
    /// the region gets its box, and the pass turns to the next region, or ends
    /// with all boxes where none is left.
    pub open spec fn region_done(&self, text: Seq<char>, out: Progress) -> bool {
        let i = self.completed@.len() as int;
        if i + 1 == self.detected@.len() {
            out matches Progress::Finished(Ok(boxes)) && Self::is_completion(
                boxes@,
                self.completed@,
                self.detected@[i],
                text,
            ) && boxes@.len() == self.detected@.len() && follow(boxes@, self.detected@)
                && forall|k: int| 0 <= k < boxes@.len() ==> (#[trigger] boxes@[k]).wf()
        } else {
            out matches Progress::Next(next, Action::Encode { planes }) && self.goes_on_as(
                next,
                Stage::Encoding,
            ) && next.detected == self.detected && Self::is_completion(
                next.completed@,
                self.completed@,
                self.detected@[i],
                text,
            ) && planes@ == region_input(self.capture@, self.detected@[i + 1])
        }
    }

    /// How a pass goes on once recognition of the current region has ended
    /// with `outcome`. A fatal error ends the pass. Any other outcome
    /// completes the region, with the text of the outcome or, for an error,
    /// with no text.
    pub open spec fn completes(&self, outcome: Result<String, Error>, out: Progress) -> bool {
        match outcome {
            Ok(text) => self.region_done(text@, out),
            Err(e) => if e.is_fatal() {
                out matches Progress::Finished(Err(ended)) && ended == e
            } else {
                self.region_done(Seq::<char>::empty(), out)
            },
        }
    }

    /// How a pass goes on with the tokenizer's outcome for the current
    /// region: the region is completed with the text, or without text where
    /// the tokenizer failed.
    pub open spec fn detokenized(&self, outcome: Result<String, String>, out: Progress) -> bool {
        match outcome {
            Ok(text) => self.region_done(text@, out),
            Err(_) => self.region_done(Seq::<char>::empty(), out),
        }
    }

    /// How a pass that waits for the decoder goes on with the logits. A
    /// tensor that does not hold a row of logits for each token ends the pass
    /// with an inference error. Otherwise the sequence takes one step; while
    /// it has not ended the decoder is to run again, and once it has, the
    /// tokenizer is to read the ids after the start token.
    pub open spec fn stepped_on(&self, shape: Seq<i64>, logits: Seq<u32>, out: Progress) -> bool {
        let ids = stepped(self.tokens@, shape, logits);
        if status_of(self.tokens@) == DecodeStatus::Decoding && !is_logits(
            shape,
            logits.len(),
            self.tokens@.len(),
        ) {
            out matches Progress::Finished(Err(e)) && e is Inference
        } else if status_of(ids) == DecodeStatus::Decoding {
            out matches Progress::Next(next, Action::Decode { ids: again }) && self.goes_on_as(
                next,
                Stage::Decoding,
            ) && next.detected == self.detected && next.completed == self.completed && next.tokens@
                == ids && again@ == ids
        } else {
            out matches Progress::Next(
                next,
                Action::Detokenize { tokens: read, skip_special_tokens },
            ) && self.goes_on_as(next, Stage::Detokenizing) && next.detected == self.detected
                && next.completed == self.completed && next.tokens@ == ids && read@
                == generated_ids(ids) && skip_special_tokens == SKIP_SPECIAL_TOKENS
        }
    }

    /// The blur has run: binarizes the intensities, pads the image to the
    /// detector's stride and asks for the detector's run. Ends the pass with
    /// an error unless there is one intensity for each pixel of the
    /// downscaled capture, and without boxes where that image is empty.
    pub fn on_blurred(self, levels: &Vec<u32>) -> (out: Progress)
        requires
            self.wf(),
            self.stage == Stage::Blurring,
        ensures
            self.blurred(levels@, out),
    {
        match binarize(self.gray_width, self.gray_height, levels) {
            None => Progress::Finished(
                Err(Error::Other(String::from_str("the blur did not keep the size of the image"))),
            ),
            Some(image) => {
                if self.gray_width == 0 || self.gray_height == 0 {
                    return Progress::Finished(Ok(self.completed));
                }
                assert(aligned(image.width as int) * aligned(image.height as int) <= 1920 * 1920)
                    by (nonlinear_arith)
                    requires
                        0 <= aligned(image.width as int) <= 1920,
                        0 <= aligned(image.height as int) <= 1920,
                ;
                let padded = pad_to_stride(&image);
                let planes = detector_planes(&padded);
                let width = padded.width;
                let height = padded.height;
                let next = OcrRun {
                    capture: self.capture,
                    stage: Stage::Detecting,
                    gray_width: self.gray_width,
                    gray_height: self.gray_height,
                    detected: self.detected,
                    completed: self.completed,
                    tokens: self.tokens,
                };
                Progress::Next(next, Action::Detect { planes, width, height })
            },
        }
    }

    /// The detector has run: turns the heat-map into boxes and asks for the
    /// encoder's run on the first region. Ends the pass with no box where
    /// nothing was detected, and with the error of detection where it fails.
    pub fn on_heatmap(self, shape: &Vec<i64>, scores: &Vec<u32>) -> (out: Progress)
        requires
            self.wf(),
            self.stage == Stage::Detecting,
        ensures
            self.mapped(shape@, scores@, out),
    {
        let scale = match Scale::between(
            self.capture.width,
            self.capture.height,
            self.gray_width,
            self.gray_height,
        ) {
            Some(scale) => scale,
            // Past the blur both sides of the downscaled capture are at least 1.
            None => {
                return Progress::Finished(Ok(self.completed));
            },
        };
        match detect(&scale, shape, scores) {
            Err(e) => Progress::Finished(Err(e)),
            Ok(boxes) => {
                if boxes.len() == 0 {
                    Progress::Finished(Ok(boxes))
                } else {
                    let next = OcrRun {
                        capture: self.capture,
                        stage: Stage::Encoding,
                        gray_width: self.gray_width,
                        gray_height: self.gray_height,
                        detected: boxes,
                        completed: self.completed,
                        tokens: self.tokens,
                    };
                    encode_current(next)
                }
            },
        }
    }

    /// The encoder has run: opens the token sequence of the region and asks
    /// for the decoder's first run.
    pub fn on_encoded(self) -> (out: Progress)
        requires
            self.wf(),
            self.stage == Stage::Encoding,
        ensures
            self.encoded(out),
    {
        let tokens = TokenSequence::new();
        let ids = TokenSequence::new().ids;
        let next = OcrRun {
            capture: self.capture,
            stage: Stage::Decoding,
            gray_width: self.gray_width,
            gray_height: self.gray_height,
            detected: self.detected,
            completed: self.completed,
            tokens,
        };
        Progress::Next(next, Action::Decode { ids })
    }
    /// Recognition of the current region has ended with `outcome`: ends the
    /// pass on a fatal error; otherwise completes the region, without text
    /// where the outcome is an error, and turns to the next region or ends
    /// the pass with all boxes.
    pub fn complete_box(self, outcome: Result<String, Error>) -> (out: Progress)
        requires
            self.wf(),
            self.has_region(),
        ensures
            self.completes(outcome, out),
    {
        let text = match outcome {
            Ok(text) => text,
            Err(e) => {
                if e.fatal() {
                    return Progress::Finished(Err(e));
                }
                String::new()
            },
        };
        let i = self.completed.len();
        let total = self.detected.len();
        let done = OcrBox {
            text,
            x: self.detected[i].x,
            y: self.detected[i].y,
            width: self.detected[i].width,
            height: self.detected[i].height,
        };
        let mut completed = self.completed;
        completed.push(done);
        if i + 1 == total {
            Progress::Finished(Ok(completed))
        } else {
            let next = OcrRun {
                capture: self.capture,
                stage: Stage::Encoding,
                gray_width: self.gray_width,
                gray_height: self.gray_height,
                detected: self.detected,
                completed,
                tokens: self.tokens,
            };
            encode_current(next)
        }
    }

    /// The decoder has run: takes one step of greedy decoding and asks for
    /// the decoder's next run, or, once the sequence has ended, for the
    /// tokenizer's reading of the tokens.
    pub fn on_logits(self, shape: &Vec<i64>, logits: &Vec<u32>) -> (out: Progress)
        requires
            self.wf(),
            self.stage == Stage::Decoding,
        ensures
            self.stepped_on(shape@, logits@, out),
    {
        let mut tokens = self.tokens;
        let status = match tokens.step(shape, logits) {
            Ok(status) => status,
            Err(e) => {
                return Progress::Finished(Err(e));
            },
        };
        match status {
            DecodeStatus::Decoding => {
                let ids = tokens.ids.clone();
                let next = OcrRun {
                    capture: self.capture,
                    stage: Stage::Decoding,
                    gray_width: self.gray_width,
                    gray_height: self.gray_height,
                    detected: self.detected,
                    completed: self.completed,
                    tokens,
                };
                Progress::Next(next, Action::Decode { ids })
            },
            _ => {
                let read = tokens.generated();
                let next = OcrRun {
                    capture: self.capture,
                    stage: Stage::Detokenizing,
                    gray_width: self.gray_width,
                    gray_height: self.gray_height,
                    detected: self.detected,
                    completed: self.completed,
                    tokens,
                };
                Progress::Next(
                    next,
                    Action::Detokenize { tokens: read, skip_special_tokens: SKIP_SPECIAL_TOKENS },
                )
            },
        }
    }

    /// The tokenizer has read the tokens: completes the region with its
    /// text, or without text where it failed, and turns to the next region or
    /// ends the pass with all boxes.
    pub fn on_detokenized(self, outcome: Result<String, String>) -> (out: Progress)
        requires
            self.wf(),
            self.stage == Stage::Detokenizing,
        ensures
            self.detokenized(outcome, out),
    {
        let ghost before = self;
        let done = text_of(outcome);
        let ghost handed = done;
        let out = self.complete_box(done);
        proof {
            assert(before.completes(handed, out));
        }
        out
    }

    /// How a pass goes on after a report. A report that the stage waits for
    /// is dealt with as the stage says; a failed session ends the pass with
    /// an inference error that carries the message; any other report ends it
    /// with an error.
    pub open spec fn advanced(&self, event: Event, out: Progress) -> bool {
        match (self.stage, event) {
            (_, Event::Failed { message }) => out matches Progress::Finished(
                Err(Error::Inference(m)),
            ) && m@ == message@,
            (Stage::Blurring, Event::Blurred { levels }) => self.blurred(levels@, out),
            (Stage::Detecting, Event::Heatmap { shape, scores }) => self.mapped(
                shape@,
                scores@,
                out,
            ),
            (Stage::Encoding, Event::Encoded) => self.encoded(out),
            (Stage::Decoding, Event::Logits { shape, logits }) => self.stepped_on(
                shape@,
                logits@,
                out,
            ),
            (Stage::Detokenizing, Event::Detokenized { outcome }) => self.detokenized(
                outcome,
                out,
            ),
            _ => out matches Progress::Finished(Err(e)) && e is Other,
        }
    }

    /// Takes a report of the caller and says how the pass goes on.
    pub fn advance(self, event: Event) -> (out: Progress)
        requires
            self.wf(),
        ensures
            self.advanced(event, out),
    {
        match event {
            Event::Failed { message } => Progress::Finished(Err(Error::Inference(message))),
            Event::Blurred { levels } => match self.stage {
                Stage::Blurring => self.on_blurred(&levels),
                _ => Progress::Finished(Err(Error::Other(String::from_str("unexpected report")))),
            },
            Event::Heatmap { shape, scores } => match self.stage {
                Stage::Detecting => self.on_heatmap(&shape, &scores),
                _ => Progress::Finished(Err(Error::Other(String::from_str("unexpected report")))),
            },
            Event::Encoded => match self.stage {
                Stage::Encoding => self.on_encoded(),
                _ => Progress::Finished(Err(Error::Other(String::from_str("unexpected report")))),
            },
            Event::Logits { shape, logits } => match self.stage {
                Stage::Decoding => self.on_logits(&shape, &logits),
                _ => Progress::Finished(Err(Error::Other(String::from_str("unexpected report")))),
            },
            Event::Detokenized { outcome } => match self.stage {
                Stage::Detokenizing => self.on_detokenized(outcome),
                _ => Progress::Finished(Err(Error::Other(String::from_str("unexpected report")))),
            },
        }
    }
}

/// Every further run of the decoder on a region lengthens its token
/// sequence by one token and leaves it short of the cap, so the decoder runs
/// fewer than [`MAX_LENGTH`] times on a region, whatever it hands back.
pub proof fn lemma_decoder_runs_are_counted(
    run: OcrRun,
    shape: Seq<i64>,
    logits: Seq<u32>,
    out: Progress,
)
    requires
        run.wf(),
        run.stage == Stage::Decoding,
        run.stepped_on(shape, logits, out),
        out matches Progress::Next(_, Action::Decode { .. }),
    ensures
        out matches Progress::Next(next, Action::Decode { ids }) && ids@ == next.tokens@
            && next.tokens@.len() == run.tokens@.len() + 1 && next.tokens@.len() < MAX_LENGTH,
{
    lemma_step_keeps_sequence(run.tokens@, shape, logits);
}

/// A failure of the tokenizer stays with its region: the pass does not end
/// with an error, every box completed before is kept, the region of the
/// failure gets a box without text, and the regions that are left are still
/// to be recognized.
pub proof fn lemma_failure_is_isolated(run: OcrRun, message: String, out: Progress)
    requires
        run.wf(),
        run.stage == Stage::Detokenizing,
        run.advanced(Event::Detokenized { outcome: Err(message) }, out),
    ensures
        match out {
            Progress::Next(next, _) => {
                &&& run.completed@.len() + 1 < run.detected@.len()
                &&& next.detected == run.detected
                &&& next.completed@.len() == run.completed@.len() + 1
                &&& forall|k: int|
                    0 <= k < run.completed@.len() ==> #[trigger] next.completed@[k]
                        == run.completed@[k]
                &&& next.completed@[run.completed@.len() as int].text@ == Seq::<char>::empty()
            },
            Progress::Finished(Ok(boxes)) => {
                &&& boxes@.len() == run.detected@.len()
                &&& forall|k: int|
                    0 <= k < run.completed@.len() ==> #[trigger] boxes@[k] == run.completed@[k]
                &&& forall|k: int|
                    0 <= k < boxes@.len() ==> (#[trigger] boxes@[k]).region()
                        == run.detected@[k].region()
                &&& boxes@[run.completed@.len() as int].text@ == Seq::<char>::empty()
            },
            Progress::Finished(Err(_)) => false,
        },
{
}

/// What `image::DynamicImage::write_to` makes of an image with 8-bit samples
/// in the PNG format: the file, or nothing where the format cannot hold the
/// image. The image has three channels where `color` holds, and one channel
/// otherwise.
pub uninterp spec fn png(color: bool, image: Raster) -> Option<Seq<u8>>;

/// The text that `base64::engine::general_purpose::STANDARD` encodes bytes to.
pub uninterp spec fn base64(bytes: Seq<u8>) -> Seq<char>;

/// `image::ImageError`, carried from the encoder to [`data_url_of`] without
/// being looked into.
#[verifier::external_type_specification]
#[verifier::external_body]
pub struct ExImageError(image::ImageError);

/// `image::DynamicImage::write_to` into memory, in the PNG format. Trusted:
/// the outcome is the one named by [`png`], which depends on the image alone:
/// the file where the call succeeds, and nothing where it fails.
#[verifier::external_body]
pub(crate) fn encode_png(image: &Image) -> (out: Result<Vec<u8>, image::ImageError>)
    requires
        image.wf(),
    ensures
        match out {
            Ok(bytes) => png(image is Color, image.raster()) == Some(bytes@),
            Err(_) => png(image is Color, image.raster()) is None,
        },
{
    let dynamic = match image {
        Image::Gray(g) => image::DynamicImage::ImageLuma8(
            image::GrayImage::from_raw(g.width, g.height, g.pixels.clone()).unwrap(),
        ),
        Image::Color(c) => image::DynamicImage::ImageRgb8(
            image::RgbImage::from_raw(c.width, c.height, c.pixels.clone()).unwrap(),
        ),
    };
    let mut bytes: Vec<u8> = Vec::new();
    dynamic.write_to(&mut std::io::Cursor::new(&mut bytes), image::ImageFormat::Png)?;
    Ok(bytes)
}

/// The message of an `image::ImageError`, as its `Display` writes it.
/// Trusted: nothing is claimed of the text.
#[verifier::external_body]
pub(crate) fn describe(error: &image::ImageError) -> (out: String) {
    error.to_string()
}

/// `base64::Engine::encode` of the standard engine. Trusted: the text is the
/// one named by [`base64`]. The size limit keeps the length of the text
/// within what a string can hold.
#[verifier::external_body]
pub(crate) fn encode_base64(bytes: &Vec<u8>) -> (out: String)
    requires
        4 * ((bytes@.len() + 2) / 3) <= isize::MAX,
    ensures
        out@ == base64(bytes@),
{
    base64::Engine::encode(&base64::engine::general_purpose::STANDARD, bytes)
}

/// The data URL of a PNG file.
pub open spec fn data_url(file: Seq<u8>) -> Seq<char> {
    "data:image/png;base64,"@ + base64(file)
}

/// Whether the Base64 text of `count` bytes fits a string.
pub open spec fn is_encodable(count: nat) -> bool {
    4 * ((count + 2) / 3) <= isize::MAX
}

/// Turns the outcome of PNG encoding into a data URL: the URL of the file
/// where there is one and its text fits a string, an image error otherwise.
pub fn data_url_of(encoded: Result<Vec<u8>, image::ImageError>) -> (out: Result<String, Error>)
    ensures
        match encoded {
            Ok(file) => if is_encodable(file@.len()) {
                out matches Ok(url) && url@ == data_url(file@)
            } else {
                out matches Err(e) && e is Image
            },
            Err(_) => out matches Err(e) && e is Image,
        },
{
    match encoded {
        Ok(file) => {
            if file.len() > (isize::MAX as usize) / 4 * 3 {
                return Err(Error::Image(String::from_str("the file is too large for a data URL")));
            }
            let text = encode_base64(&file);
            Ok(String::from_str("data:image/png;base64,").concat(text.as_str()))
        },
        Err(e) => Err(Error::Image(describe(&e))),
    }
}

/// The snapshot of an image for the diagnostic channel: its PNG file as a
/// data URL. An image error where the format cannot hold the image, or where
/// the text of the URL would not fit a string.
pub fn image_buffer_to_base64(image_buffer: &Image) -> (out: Result<String, Error>)
    requires
        image_buffer.wf(),
    ensures
        match png(image_buffer is Color, image_buffer.raster()) {
            Some(file) => if is_encodable(file.len()) {
                out matches Ok(url) && url@ == data_url(file)
            } else {
                out matches Err(e) && e is Image
            },
            None => out matches Err(e) && e is Image,
        },
{
    data_url_of(encode_png(image_buffer))
}

} // verus!
