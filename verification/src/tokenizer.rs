//! Turning page text into fixed-length model input.

use vstd::prelude::*;
use vstd::string::StringExecFns;

verus! {

/// Declares `tokenizers::Tokenizer`.
#[verifier::external_type_specification]
#[verifier::external_body]
pub struct ExTokenizer(tokenizers::Tokenizer);

/// Declares `tokenizers::processors::PostProcessorWrapper`, the tokenizer's
/// post-processor.
#[verifier::external_type_specification]
#[verifier::external_body]
pub struct ExPostProcessorWrapper(tokenizers::processors::PostProcessorWrapper);

/// Reads `TokenizerImpl::get_truncation` as plain values: the truncation's
/// `max_length` and `stride`, or `None` when the tokenizer does not
/// truncate. The values are the tokenizer's configuration, which nothing
/// here names.
#[verifier::external_body]
fn truncation_settings(tokenizer: &tokenizers::Tokenizer) -> (r: Option<(usize, usize)>) {
    match tokenizer.get_truncation() {
        Some(params) => Some((params.max_length, params.stride)),
        None => None,
    }
}

/// Calls `TokenizerImpl::get_post_processor`: the tokenizer's
/// post-processor, if it has one.
#[verifier::external_body]
fn post_processor(tokenizer: &tokenizers::Tokenizer) -> (r: Option<&tokenizers::processors::PostProcessorWrapper>) {
    tokenizer.get_post_processor()
}

/// Calls `PostProcessor::added_tokens` for a single sequence: how many
/// special tokens the post-processor adds to it.
#[verifier::external_body]
fn added_tokens_single(processor: &tokenizers::processors::PostProcessorWrapper) -> (r: usize) {
    tokenizers::PostProcessor::added_tokens(processor, false)
}

/// True when encoding one sequence with special tokens cannot hit the
/// library's assertions: without truncation always; with truncation to
/// `max_length` at `stride`, the special tokens must fit into `max_length`
/// (the library subtracts them without a check), and the stride must be
/// below the length left for the text unless that length is 0 (the library
/// asserts it when it cuts the text).
pub open spec fn encoding_settings_ok(truncation: Option<(usize, usize)>, special_tokens: usize) -> bool {
    match truncation {
        None => true,
        Some((max_length, stride)) => special_tokens <= max_length && (max_length - special_tokens == 0 || stride
            < max_length - special_tokens),
    }
}

/// A tokenizer together with the settings, read from it, that decide
/// whether encoding can go wrong. Only `check_tokenizer` makes one, so the
/// settings are always those of the tokenizer it holds.
struct CheckedTokenizer<'a> {
    tokenizer: &'a tokenizers::Tokenizer,
    truncation: Option<(usize, usize)>,
    special_tokens: usize,
}

impl<'a> CheckedTokenizer<'a> {
    /// True when encoding one sequence with this tokenizer is safe.
    spec fn can_encode(&self) -> bool {
        encoding_settings_ok(self.truncation, self.special_tokens)
    }

    /// Whether encoding is safe, as `can_encode` states it.
    fn encoding_is_safe(&self) -> (r: bool)
        ensures
            r == self.can_encode(),
    {
        match self.truncation {
            None => true,
            Some((max_length, stride)) => self.special_tokens <= max_length && (max_length - self.special_tokens
                == 0 || stride < max_length - self.special_tokens),
        }
    }
}

/// Reads a tokenizer's truncation settings and the number of special tokens
/// its post-processor adds to one sequence (none without a post-processor).
fn check_tokenizer<'a>(tokenizer: &'a tokenizers::Tokenizer) -> (r: CheckedTokenizer<'a>)
    ensures
        r.tokenizer == tokenizer,
{
    let truncation = truncation_settings(tokenizer);
    let special_tokens = match post_processor(tokenizer) {
        Some(p) => added_tokens_single(p),
        None => 0,
    };
    CheckedTokenizer { tokenizer, truncation, special_tokens }
}

/// Calls `Tokenizer::encode` on `text` with special tokens added and hands
/// back the ids of the encoding, or `None` when encoding fails. What the ids
/// are depends on the tokenizer's vocabulary and can be random (BPE
/// dropout), so nothing here states them. The requirement keeps out the
/// truncation settings on which `encode` panics; they are the held
/// tokenizer's own, as `check_tokenizer` read them.
#[verifier::external_body]
fn encode_ids(checked: &CheckedTokenizer, text: &str) -> (r: Option<Vec<u32>>)
    requires
        checked.can_encode(),
{
    match checked.tokenizer.encode(text, true) {
        Ok(encoding) => Some(encoding.get_ids().to_vec()),
        Err(_) => None,
    }
}

/// The first `max_len` ids, widened to `i64`, padded with zeros.
pub open spec fn padded_ids(ids: Seq<u32>, max_len: int) -> Seq<i64> {
    Seq::new(max_len as nat, |i: int| if i < ids.len() { ids[i] as i64 } else { 0i64 })
}

/// The attention mask for `n` ids in `max_len` slots: ones for the slots
/// that hold an id, zeros after.
pub open spec fn attention_mask(n: int, max_len: int) -> Seq<i64> {
    Seq::new(max_len as nat, |i: int| if i < n { 1i64 } else { 0i64 })
}

/// Pads or truncates token ids to `max_len` slots and builds the matching
/// attention mask.
pub fn pad_token_ids(ids: &[u32], max_len: usize) -> (r: (Vec<i64>, Vec<i64>))
    ensures
        r.0@ == padded_ids(ids@, max_len as int),
        r.1@ == attention_mask(ids@.len() as int, max_len as int),
{
    let mut input_ids: Vec<i64> = vec![0i64; max_len];
    let mut mask: Vec<i64> = vec![0i64; max_len];
    let len = if ids.len() < max_len { ids.len() } else { max_len };
    let mut i: usize = 0;
    while i < len
        invariant
            len <= max_len,
            len <= ids.len(),
            len == ids.len() || len == max_len,
            i <= len,
            input_ids.len() == max_len,
            mask.len() == max_len,
            forall|k: int|
                0 <= k < max_len ==> #[trigger] input_ids@[k] == (if k < i { ids@[k] as i64 } else { 0i64 }),
            forall|k: int| 0 <= k < max_len ==> #[trigger] mask@[k] == (if k < i { 1i64 } else { 0i64 }),
        decreases len - i,
    {
        input_ids[i] = ids[i] as i64;
        mask[i] = 1;
        i = i + 1;
    }
    assert(input_ids@ =~= padded_ids(ids@, max_len as int));
    assert(mask@ =~= attention_mask(ids@.len() as int, max_len as int));
    (input_ids, mask)
}

/// Encodes `text` and returns its ids padded or truncated to `max_len`
/// slots with their attention mask, or `None` when the tokenizer fails. A
/// tokenizer whose truncation settings would make encoding panic (see
/// `encoding_settings_ok`) gives `None` without encoding.
pub fn tokenize(tokenizer: &tokenizers::Tokenizer, text: &str, max_len: usize) -> (r: Option<(Vec<i64>, Vec<i64>)>)
    ensures
        r matches Some(p) ==> exists|ids: Seq<u32>|
            #[trigger] padded_ids(ids, max_len as int) == p.0@ && p.1@ == attention_mask(
                ids.len() as int,
                max_len as int,
            ),
{
    let checked = check_tokenizer(tokenizer);
    if !checked.encoding_is_safe() {
        return None;
    }
    match encode_ids(&checked, text) {
        Some(ids) => {
            let p = pad_token_ids(ids.as_slice(), max_len);
            assert(padded_ids(ids@, max_len as int) == p.0@);
            Some(p)
        },
        None => None,
    }
}

/// The text of the nodes that carry some, each followed by a space.
pub open spec fn joined_texts(texts: Seq<Option<String>>) -> Seq<char>
    decreases texts.len(),
{
    if texts.len() == 0 {
        Seq::empty()
    } else {
        joined_texts(texts.drop_last()) + match texts.last() {
            Some(t) => if t@.len() > 0 { t@ + " "@ } else { Seq::empty() },
            None => Seq::empty(),
        }
    }
}

/// The text handed to the model for a page: every non-empty node text
/// followed by a space, or `empty` when there is none.
pub fn build_inference_text(texts: &Vec<Option<String>>) -> (r: String)
    ensures
        r@ == (if joined_texts(texts@).len() == 0 { "empty"@ } else { joined_texts(texts@) }),
{
    let mut full = String::new();
    let mut i: usize = 0;
    while i < texts.len()
        invariant
            i <= texts.len(),
            full@ == joined_texts(texts@.subrange(0, i as int)),
        decreases texts.len() - i,
    {
        assert(texts@.subrange(0, i as int + 1).drop_last() =~= texts@.subrange(0, i as int));
        match &texts[i] {
            Some(t) => {
                if !t.as_str().is_empty() {
                    full.append(t.as_str());
                    full.append(" ");
                }
            },
            None => {},
        }
        i = i + 1;
    }
    assert(texts@.subrange(0, texts@.len() as int) =~= texts@);
    if full.as_str().is_empty() {
        full.append("empty");
    }
    full
}

/// The model input holds exactly `max_len` slots: slot `i` holds id `i`
/// and is marked in the attention mask while there is an id for it, and is
/// `0` and unmarked after the last id. Ids beyond `max_len` are dropped.
pub proof fn lemma_padded_input(ids: Seq<u32>, max_len: nat, i: int)
    requires
        0 <= i < max_len,
    ensures
        padded_ids(ids, max_len as int).len() == max_len,
        attention_mask(ids.len() as int, max_len as int).len() == max_len,
        i < ids.len() ==> padded_ids(ids, max_len as int)[i] == ids[i] as i64 && attention_mask(
            ids.len() as int,
            max_len as int,
        )[i] == 1,
        i >= ids.len() ==> padded_ids(ids, max_len as int)[i] == 0 && attention_mask(
            ids.len() as int,
            max_len as int,
        )[i] == 0,
{
}

} // verus!
