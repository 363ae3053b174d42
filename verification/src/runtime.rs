//! The capability interface of the external neural runtime.
//!
//! The pipeline treats model execution as a black box with stated
//! contracts: loading a model graph, resampling enrollment audio,
//! extracting the self-supervised acoustic features, running the
//! grapheme-to-phoneme and embedding models, and the speaker-conditioned
//! forward synthesis call.  An implementation supplies one spec function
//! per deterministic operation and must return exactly that value on
//! success; forward synthesis is allowed to be stochastic, so nothing is
//! promised of the audio it returns.

use vstd::prelude::*;
use crate::audio::AudioTensor;
use crate::g2p::BertSeq;
use crate::g2p::str_views;
use crate::TtsError;

verus! {

/// Neural inference runtime, as the orchestrator consumes it.
///
/// `Model` is an opaque handle to one loaded synthesis model graph; each
/// enrolled speaker carries its own.  All runtime work is performed under
/// inference-only evaluation by the implementation.
///
/// Implementations live with the embedding application and are not
/// verified here: everything proved through this interface holds of an
/// implementation exactly insofar as it meets these contracts.
pub trait InferenceRuntime: Sized {
    type Model;

    /// The samples of `audio` resampled from `source_rate` to `target_rate` Hz.
    spec fn resample_spec(&self, audio: Seq<u32>, source_rate: nat, target_rate: nat) -> Seq<u32>;

    /// The acoustic feature sequence extracted from a 16 kHz buffer.
    spec fn ssl_spec(&self, audio_16k: Seq<u32>) -> Seq<u32>;

    /// Phoneme symbols for pre-segmented CJK words.
    spec fn zh_phones_spec(&self, words: Seq<Seq<char>>) -> Seq<Seq<char>>;

    /// Contextual embedding rows for the same CJK words, phoneme-aligned.
    spec fn zh_bert_spec(&self, words: Seq<Seq<char>>) -> Seq<Seq<u32>>;

    /// Phoneme symbols for Latin-alphabet text.
    spec fn en_phones_spec(&self, text: Seq<char>) -> Seq<Seq<char>>;

    /// Phoneme symbols for kana text.
    spec fn jp_phones_spec(&self, text: Seq<char>) -> Seq<Seq<char>>;

    /// Width of every embedding row, uniform across languages.
    spec fn bert_dim(&self) -> nat;

    /// The uniform embedding width as a machine integer.
    fn embedding_dim(&self) -> (d: usize)
        ensures
            d as nat == self.bert_dim(),
    ;

    /// Loads one speaker's synthesis model graph and forces
    /// inference-only evaluation on it.
    fn load_model(&self, path: &str) -> (r: Result<Self::Model, TtsError>)
        ensures
            r matches Err(e) ==> e == TtsError::AssetLoad,
    ;

    /// Resamples an audio buffer; deterministic in its inputs.
    fn resample(&self, audio: &AudioTensor, source_rate: usize, target_rate: usize) -> (r: Result<
        AudioTensor,
        TtsError,
    >)
        ensures
            r matches Ok(a) ==> a@ == self.resample_spec(
                audio@,
                source_rate as nat,
                target_rate as nat,
            ),
            r matches Err(e) ==> e == TtsError::RuntimeForward,
    ;

    /// Extracts the self-supervised acoustic features of a 16 kHz buffer;
    /// deterministic in its input.
    fn extract_ssl(&self, audio_16k: &AudioTensor) -> (r: Result<AudioTensor, TtsError>)
        ensures
            r matches Ok(a) ==> a@ == self.ssl_spec(audio_16k@),
            r matches Err(e) ==> e == TtsError::RuntimeForward,
    ;

    /// Converts pre-segmented CJK words to phoneme symbols together with
    /// an index-aligned embedding row per phoneme, all rows of width
    /// `bert_dim`; deterministic in its inputs.
    fn convert_zh(&self, words: &Vec<String>) -> (r: Result<(Vec<String>, BertSeq), TtsError>)
        ensures
            r matches Ok(pb) ==> str_views(pb.0@) == self.zh_phones_spec(str_views(words@))
                && pb.1@ == self.zh_bert_spec(str_views(words@)) && pb.1@.len() == pb.0@.len()
                && pb.1.wf(self.bert_dim()),
            r matches Err(e) ==> e == TtsError::RuntimeForward || e == TtsError::AssetLoad,
    ;

    /// Converts Latin-alphabet text to phoneme symbols; deterministic in
    /// its input.
    fn convert_en(&self, text: &str) -> (r: Result<Vec<String>, TtsError>)
        ensures
            r matches Ok(p) ==> str_views(p@) == self.en_phones_spec(text@),
            r matches Err(e) ==> e == TtsError::RuntimeForward || e == TtsError::AssetLoad,
    ;

    /// Converts kana text to phoneme symbols; deterministic in its input.
    fn convert_jp(&self, text: &str) -> (r: Result<Vec<String>, TtsError>)
        ensures
            r matches Ok(p) ==> str_views(p@) == self.jp_phones_spec(text@),
            r matches Err(e) ==> e == TtsError::RuntimeForward || e == TtsError::AssetLoad,
    ;

    /// Speaker-conditioned forward synthesis.  The six inputs are handed
    /// to the model in exactly this order: cached acoustic features,
    /// 32 kHz reference audio, reference phoneme ids, target phoneme ids,
    /// reference embeddings, target embeddings.  The model may be
    /// stochastic, so nothing is promised of the returned samples.
    fn forward(
        &self,
        model: &Self::Model,
        ssl_content: &AudioTensor,
        ref_audio_32k: &AudioTensor,
        ref_phone_seq: &Vec<i64>,
        text_phone_seq: &Vec<i64>,
        ref_bert_seq: &BertSeq,
        text_bert_seq: &BertSeq,
    ) -> (r: Result<AudioTensor, TtsError>)
        ensures
            r matches Err(e) ==> e == TtsError::RuntimeForward,
    ;
}

} // verus!
