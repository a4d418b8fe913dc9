//! Recognition of the text in one region: the encoder's input and the greedy
//! decoding of token ids.

use crate::binary32::{total_key, total_order_key};
use crate::error::Error;
use crate::raster::{
    resize_exact, stretched, ColorImage, Raster, ResampleFilter, RESAMPLING_LIMIT,
};
use vstd::prelude::*;
use vstd::string::StringExecFns;

verus! {

/// A token sequence never grows beyond this length, the start token included.
pub const MAX_LENGTH: usize = 100;

/// The token that opens every sequence.
pub const START_TOKEN_ID: i64 = 2;

/// The token that ends a sequence.
pub const END_TOKEN_ID: i64 = 2;

/// The encoder reads a square image with sides of this length.
pub const TARGET_SIZE: u32 = 224;

/// The samples of a three-channel image of `count` pixels, regrouped by
/// channel: all red samples, then all green ones, then all blue ones.
pub open spec fn planar(samples: Seq<u8>, count: nat) -> Seq<u8> {
    Seq::new(3 * count, |k: int| samples[(k % (count as int)) * 3 + k / (count as int)])
}

/// Regroups the samples of a three-channel image by channel.
pub fn to_planes(image: &ColorImage) -> (out: Vec<u8>)
    requires
        image.wf(),
    ensures
        out@ == planar(image.pixels@, (image.width * image.height) as nat),
{
    let total = image.pixels.len();
    let count = total / 3;
    let mut planes: Vec<u8> = Vec::new();
    let mut k: usize = 0;
    while k < total
        invariant
            total == image.pixels@.len(),
            total == 3 * count,
            k <= total,
            planes@.len() == k,
            forall|j: int|
                0 <= j < k ==> planes@[j] == image.pixels@[(j % (count as int)) * 3 + j / (
                count as int)],
        decreases total - k,
    {
        let pixel = k % count;
        let channel = k / count;
        proof {
            vstd::arithmetic::div_mod::lemma_multiply_divide_lt(k as int, count as int, 3);
        }
        planes.push(image.pixels[pixel * 3 + channel]);
        k += 1;
    }
    proof {
        assert(planes@ =~= planar(image.pixels@, (image.width * image.height) as nat));
    }
    planes
}

/// The encoder's input for a region, before normalization.
pub open spec fn encoder_input(region: Raster) -> Seq<u8> {
    planar(
        stretched(region, TARGET_SIZE, TARGET_SIZE, ResampleFilter::Triangle),
        (TARGET_SIZE * TARGET_SIZE) as nat,
    )
}

/// Prepares a region for the encoder: resizes it to [`TARGET_SIZE`] on both
/// sides with linear interpolation and regroups the samples by channel.
pub fn encoder_planes(region: &ColorImage) -> (out: Vec<u8>)
    requires
        region.wf(),
        region.width < RESAMPLING_LIMIT,
        region.height < RESAMPLING_LIMIT,
        16 * (region.width * TARGET_SIZE) <= isize::MAX,
    ensures
        out@ == encoder_input(region@),
        out@.len() == 3 * (TARGET_SIZE * TARGET_SIZE),
{
    let square = resize_exact(region, TARGET_SIZE, TARGET_SIZE, ResampleFilter::Triangle);
    to_planes(&square)
}

/// Whether `i` is the first position of `logits` that holds its greatest
/// value, in the IEEE 754 total order.
pub open spec fn is_first_max(logits: Seq<u32>, i: int) -> bool {
    &&& 0 <= i < logits.len()
    &&& forall|j: int| 0 <= j < logits.len() ==> total_key(#[trigger] logits[j]) <= total_key(logits[i])
    &&& forall|j: int| 0 <= j < i ==> total_key(#[trigger] logits[j]) < total_key(logits[i])
}

/// The first position of `logits` that holds its greatest value; 0 for no
/// logits at all.
pub open spec fn first_max(logits: Seq<u32>) -> int
    decreases logits.len(),
{
    if logits.len() <= 1 {
        0
    } else {
        let earlier = first_max(logits.drop_last());
        if total_key(logits.last()) > total_key(logits[earlier]) {
            logits.len() - 1
        } else {
            earlier
        }
    }
}

/// [`first_max`] is the first position of the greatest value.
pub proof fn lemma_first_max(logits: Seq<u32>)
    requires
        logits.len() > 0,
    ensures
        is_first_max(logits, first_max(logits)),
    decreases logits.len(),
{
    if logits.len() > 1 {
        let rest = logits.drop_last();
        lemma_first_max(rest);
        let earlier = first_max(rest);
        assert(rest[earlier] == logits[earlier]);
        assert forall|j: int| 0 <= j < logits.len() implies total_key(#[trigger] logits[j])
            <= total_key(logits[first_max(logits)]) by {
            if j < logits.len() - 1 {
                assert(rest[j] == logits[j]);
            }
        }
        assert forall|j: int| 0 <= j < first_max(logits) implies total_key(#[trigger] logits[j])
            < total_key(logits[first_max(logits)]) by {
            assert(rest[j] == logits[j]);
        }
    }
}

/// No two positions are the first position of the greatest value.
pub proof fn lemma_first_max_is_unique(logits: Seq<u32>, i: int, j: int)
    requires
        is_first_max(logits, i),
        is_first_max(logits, j),
    ensures
        i == j,
{
    if i < j {
        assert(total_key(logits[i]) < total_key(logits[j]));
        assert(total_key(logits[j]) <= total_key(logits[i]));
    } else if j < i {
        assert(total_key(logits[j]) < total_key(logits[i]));
        assert(total_key(logits[i]) <= total_key(logits[j]));
    }
}

/// Greedy selection: the first position of the greatest logit among
/// `logits[from..to]`, counted from `from`.
pub fn argmax(logits: &Vec<u32>, from: usize, to: usize) -> (out: usize)
    requires
        from < to <= logits@.len(),
    ensures
        out == first_max(logits@.subrange(from as int, to as int)),
        is_first_max(logits@.subrange(from as int, to as int), out as int),
{
    let ghost window = logits@.subrange(from as int, to as int);
    let mut best: usize = 0;
    let mut best_key: i64 = total_order_key(logits[from]);
    let mut i: usize = 1;
    proof {
        assert(window.take(1).len() == 1);
    }
    while from + i < to
        invariant
            from < to <= logits@.len(),
            window == logits@.subrange(from as int, to as int),
            1 <= i <= to - from,
            best == first_max(window.take(i as int)),
            best < i,
            best_key == total_key(window[best as int]),
        decreases to - from - i,
    {
        let key = total_order_key(logits[from + i]);
        proof {
            assert(window.take(i + 1).drop_last() =~= window.take(i as int));
            assert(window.take(i + 1).last() == window[i as int]);
            assert(window.take(i + 1)[best as int] == window[best as int]);
        }
        if key > best_key {
            best = i;
            best_key = key;
        }
        i += 1;
    }
    proof {
        assert(window.take(i as int) =~= window);
        lemma_first_max(window);
    }
    best
}

/// Whether a tensor of `count` logits with the given shape holds one row of
/// logits for each of `positions` tokens: one batch, the positions, then a
/// vocabulary whose indices fit a token id.
pub open spec fn is_logits(shape: Seq<i64>, count: nat, positions: nat) -> bool {
    &&& shape.len() == 3
    &&& shape[0] == 1
    &&& shape[1] == positions
    &&& 1 <= shape[2] <= 0x1_0000_0000
    &&& count == positions * shape[2]
}

/// The token that greedy decoding selects: the index of the greatest logit in
/// the row of the last position, the first one where several are greatest.
pub open spec fn next_token(shape: Seq<i64>, logits: Seq<u32>) -> int {
    first_max(logits.subrange((shape[1] - 1) * shape[2], shape[1] * shape[2]))
}

/// Where a token sequence stands.
#[derive(Clone, Copy, Debug, PartialEq, Eq, Structural)]
pub enum DecodeStatus {
    /// The decoder is to run again.
    Decoding,
    /// The last token is the end token.
    Done,
    /// The sequence has reached [`MAX_LENGTH`] without an end token.
    Capped,
}

/// Where a sequence of token ids stands.
pub open spec fn status_of(ids: Seq<i64>) -> DecodeStatus {
    if ids.len() >= 2 && ids.last() == END_TOKEN_ID {
        DecodeStatus::Done
    } else if ids.len() >= MAX_LENGTH {
        DecodeStatus::Capped
    } else {
        DecodeStatus::Decoding
    }
}

/// Whether `ids` can arise in decoding: they open with the start token, are
/// token ids, do not exceed [`MAX_LENGTH`], and hold no end token between
/// the first and the last.
pub open spec fn is_token_sequence(ids: Seq<i64>) -> bool {
    &&& 1 <= ids.len() <= MAX_LENGTH
    &&& ids[0] == START_TOKEN_ID
    &&& forall|k: int| 0 <= k < ids.len() ==> 0 <= #[trigger] ids[k] <= u32::MAX
    &&& forall|k: int| 1 <= k < ids.len() - 1 ==> #[trigger] ids[k] != END_TOKEN_ID
}

/// One step of greedy decoding on a sequence of token ids. A sequence that
/// has ended stays as it is, and so does one that is handed a tensor which
/// does not hold a row of logits for each of its tokens. Any other grows by
/// the selected token.
pub open spec fn stepped(ids: Seq<i64>, shape: Seq<i64>, logits: Seq<u32>) -> Seq<i64> {
    if status_of(ids) == DecodeStatus::Decoding && is_logits(shape, logits.len(), ids.len()) {
        ids.push(next_token(shape, logits) as i64)
    } else {
        ids
    }
}

/// The ids that the tokenizer is handed for a token sequence: all but the
/// start token.
pub open spec fn generated_ids(ids: Seq<i64>) -> Seq<u32> {
    Seq::new((ids.len() - 1) as nat, |k: int| ids[k + 1] as u32)
}

/// The token ids of one decoding, the start token first.
#[derive(Clone, Debug, PartialEq, Eq)]
pub struct TokenSequence {
    pub ids: Vec<i64>,
}

impl View for TokenSequence {
    type V = Seq<i64>;

    open spec fn view(&self) -> Seq<i64> {
        self.ids@
    }
}

impl TokenSequence {
    /// The ids can arise in decoding.
    pub open spec fn wf(&self) -> bool {
        is_token_sequence(self@)
    }

    /// The sequence before the first step: the start token alone.
    pub fn new() -> (out: TokenSequence)
        ensures
            out.wf(),
            out@ == seq![START_TOKEN_ID],
            status_of(out@) == DecodeStatus::Decoding,
    {
        let mut ids: Vec<i64> = Vec::new();
        ids.push(START_TOKEN_ID);
        proof {
            assert(ids@ =~= seq![START_TOKEN_ID]);
        }
        TokenSequence { ids }
    }

    /// Computes [`status_of`].
    pub fn status(&self) -> (out: DecodeStatus)
        requires
            self.wf(),
        ensures
            out == status_of(self@),
    {
        let n = self.ids.len();
        if n >= 2 && self.ids[n - 1] == END_TOKEN_ID {
            DecodeStatus::Done
        } else if n >= MAX_LENGTH {
            DecodeStatus::Capped
        } else {
            DecodeStatus::Decoding
        }
    }

    /// One step of greedy decoding: reads the logits of the last position,
    /// given as single-precision bit patterns, selects the token with the
    /// greatest logit and appends it. Returns where the sequence stands
    /// afterwards. A sequence that has ended is left as it is. An inference
    /// error, and the sequence unchanged, where the tensor does not hold a
    /// row of logits for each token of the sequence.
    pub fn step(&mut self, shape: &Vec<i64>, logits: &Vec<u32>) -> (out: Result<
        DecodeStatus,
        Error,
    >)
        requires
            old(self).wf(),
        ensures
            final(self).wf(),
            final(self)@ == stepped(old(self)@, shape@, logits@),
            match out {
                Ok(status) => status == status_of(final(self)@) && (status_of(old(self)@)
                    == DecodeStatus::Decoding ==> is_logits(
                    shape@,
                    logits@.len(),
                    old(self)@.len(),
                )),
                Err(e) => e is Inference && status_of(old(self)@) == DecodeStatus::Decoding
                    && !is_logits(shape@, logits@.len(), old(self)@.len()),
            },
    {
        let before = self.status();
        match before {
            DecodeStatus::Decoding => {},
            _ => {
                return Ok(before);
            },
        }
        let positions = self.ids.len();
        if shape.len() != 3 || shape[0] != 1 || shape[1] != positions as i64 || shape[2] < 1
            || shape[2] > 0x1_0000_0000 {
            return Err(
                Error::Inference(String::from_str("the decoder's output is not a row of logits per token")),
            );
        }
        let vocabulary: u64 = shape[2] as u64;
        assert(positions * vocabulary <= 100 * 0x1_0000_0000) by (nonlinear_arith)
            requires
                0 <= positions <= 100,
                0 <= vocabulary <= 0x1_0000_0000,
        ;
        assert((positions - 1) * vocabulary + vocabulary == positions * vocabulary)
            by (nonlinear_arith);
        if logits.len() as u64 != (positions as u64) * vocabulary {
            return Err(
                Error::Inference(String::from_str("the decoder's output does not hold one logit per entry")),
            );
        }
        let from: usize = ((positions as u64 - 1) * vocabulary) as usize;
        let to: usize = logits.len();
        let token = argmax(logits, from, to);
        proof {
            assert(from == (shape@[1] - 1) * shape@[2]);
            assert(to == shape@[1] * shape@[2]);
        }
        self.ids.push(token as i64);
        Ok(self.status())
    }

    /// The ids after the start token, as the tokenizer reads them.
    pub fn generated(&self) -> (out: Vec<u32>)
        requires
            self.wf(),
        ensures
            out@ == generated_ids(self@),
    {
        let mut tokens: Vec<u32> = Vec::new();
        let mut i: usize = 1;
        while i < self.ids.len()
            invariant
                self.wf(),
                1 <= i <= self.ids.len(),
                tokens@.len() == i - 1,
                forall|k: int| 0 <= k < tokens@.len() ==> tokens@[k] == self@[k + 1],
            decreases self.ids.len() - i,
        {
            tokens.push(self.ids[i] as u32);
            i += 1;
        }
        proof {
            assert(tokens@ =~= generated_ids(self@));
        }
        tokens
    }
}

/// What one run of the decoder hands back.
pub struct Logits {
    pub shape: Seq<i64>,
    pub values: Seq<u32>,
}

/// The sequence after one step for each of the decoder's outputs, in turn.
pub open spec fn decoded(ids: Seq<i64>, outputs: Seq<Logits>) -> Seq<i64>
    decreases outputs.len(),
{
    if outputs.len() == 0 {
        ids
    } else {
        decoded(stepped(ids, outputs[0].shape, outputs[0].values), outputs.skip(1))
    }
}

/// Whether every output, in its turn, holds a row of logits for each token
/// of the sequence it is handed to, as long as that sequence has not ended.
pub open spec fn are_accepted(ids: Seq<i64>, outputs: Seq<Logits>) -> bool
    decreases outputs.len(),
{
    outputs.len() == 0 || ((status_of(ids) == DecodeStatus::Decoding ==> is_logits(
        outputs[0].shape,
        outputs[0].values.len(),
        ids.len(),
    )) && are_accepted(stepped(ids, outputs[0].shape, outputs[0].values), outputs.skip(1)))
}

/// A step keeps a token sequence a token sequence, leaves one that has ended
/// as it is, and lengthens any other by one token where it accepts the
/// output.
pub proof fn lemma_step_keeps_sequence(ids: Seq<i64>, shape: Seq<i64>, logits: Seq<u32>)
    requires
        is_token_sequence(ids),
    ensures
        is_token_sequence(stepped(ids, shape, logits)),
        status_of(ids) != DecodeStatus::Decoding ==> stepped(ids, shape, logits) == ids,
        status_of(ids) == DecodeStatus::Decoding && is_logits(shape, logits.len(), ids.len())
            ==> stepped(ids, shape, logits).len() == ids.len() + 1,
{
    if status_of(ids) == DecodeStatus::Decoding && is_logits(shape, logits.len(), ids.len()) {
        let from = (shape[1] - 1) * shape[2];
        let to = shape[1] * shape[2];
        assert(to - from == shape[2]) by (nonlinear_arith)
            requires
                from == (shape[1] - 1) * shape[2],
                to == shape[1] * shape[2],
        ;
        assert(0 <= from) by (nonlinear_arith)
            requires
                from == (shape[1] - 1) * shape[2],
                shape[1] >= 1,
                shape[2] >= 1,
        ;
        let window = logits.subrange(from, to);
        lemma_first_max(window);
        let next = stepped(ids, shape, logits);
        assert forall|k: int| 0 <= k < next.len() implies 0 <= #[trigger] next[k] <= u32::MAX by {
            if k < ids.len() {
                assert(next[k] == ids[k]);
            }
        }
        assert forall|k: int| 1 <= k < next.len() - 1 implies #[trigger] next[k]
            != END_TOKEN_ID by {
            assert(next[k] == ids[k]);
            if k == ids.len() - 1 {
                assert(ids.last() == ids[k]);
            }
        }
    }
}

/// The hard cap: whatever the decoder hands back, and however often, the
/// sequence stays a token sequence, so it never exceeds [`MAX_LENGTH`].
pub proof fn lemma_decoding_is_capped(ids: Seq<i64>, outputs: Seq<Logits>)
    requires
        is_token_sequence(ids),
    ensures
        is_token_sequence(decoded(ids, outputs)),
        decoded(ids, outputs).len() <= MAX_LENGTH,
    decreases outputs.len(),
{
    if outputs.len() > 0 {
        lemma_step_keeps_sequence(ids, outputs[0].shape, outputs[0].values);
        lemma_decoding_is_capped(
            stepped(ids, outputs[0].shape, outputs[0].values),
            outputs.skip(1),
        );
    }
}

/// A sequence that has ended stays as it is, whatever the decoder hands back.
pub proof fn lemma_ended_stays(ids: Seq<i64>, outputs: Seq<Logits>)
    requires
        status_of(ids) != DecodeStatus::Decoding,
    ensures
        decoded(ids, outputs) == ids,
    decreases outputs.len(),
{
    if outputs.len() > 0 {
        lemma_ended_stays(ids, outputs.skip(1));
    }
}

/// Termination: once the decoder has run as often as the sequence has room
/// left, decoding has ended, whether or not an end token was ever selected.
pub proof fn lemma_decoding_ends(ids: Seq<i64>, outputs: Seq<Logits>)
    requires
        is_token_sequence(ids),
        are_accepted(ids, outputs),
        outputs.len() >= MAX_LENGTH - ids.len(),
    ensures
        status_of(decoded(ids, outputs)) != DecodeStatus::Decoding,
    decreases outputs.len(),
{
    if status_of(ids) != DecodeStatus::Decoding {
        lemma_ended_stays(ids, outputs);
    } else if outputs.len() > 0 {
        lemma_step_keeps_sequence(ids, outputs[0].shape, outputs[0].values);
        lemma_decoding_ends(stepped(ids, outputs[0].shape, outputs[0].values), outputs.skip(1));
    }
}

/// Special tokens are left out of the text.
pub const SKIP_SPECIAL_TOKENS: bool = true;

/// What recognition returns for an outcome of the tokenizer: its text, or a
/// tokenizer error with its message.
pub fn text_of(outcome: Result<String, String>) -> (out: Result<String, Error>)
    ensures
        match outcome {
            Ok(text) => out matches Ok(t) && t@ == text@,
            Err(message) => out matches Err(Error::Tokenizer(m)) && m@ == message@,
        },
{
    match outcome {
        Ok(text) => Ok(text),
        Err(message) => Err(Error::Tokenizer(message)),
    }
}

} // verus!
