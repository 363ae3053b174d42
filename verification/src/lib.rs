//! Text-to-speech synthesis orchestrator.
//!
//! The library sequences the stages of a voice-cloning pipeline: speaker
//! enrollment (reference feature extraction and caching), segmentation of
//! long input text, language-routed grapheme-to-phoneme conversion, and
//! chunked inference with ordered audio concatenation.  The neural
//! runtime that executes model graphs is an external collaborator reached
//! through the [`runtime::InferenceRuntime`] capability interface; the
//! orchestrator owns the policy that sequences its calls.

use vstd::prelude::*;
use vstd::pervasive::VecAdditionalExecFns;
use vstd::string::StrSliceExecFns;
use vstd::string::StringExecFns;

use crate::audio::AudioTensor;
use crate::audio::chunk_views;
use crate::audio::concat_audio;
use crate::g2p::BertSeq;
use crate::g2p::WordSegmenter;
use crate::g2p::g2p_text;
use crate::g2p::get_phone_and_bert;
use crate::runtime::InferenceRuntime;
use crate::symbols::SymbolTable;
use crate::text::fragments_of;
use crate::text::split_text;

pub mod audio;
pub mod g2p;
pub mod runtime;
pub mod symbols;
pub mod text;

verus! {

/// The error kinds a pipeline request can surface.
///
/// Each variant identifies one failure class; no silent recovery or
/// fallback output is ever produced in its place.
#[derive(Clone, Copy, Debug, PartialEq, Eq, Structural)]
pub enum TtsError {
    /// A model, dictionary or tokenizer asset failed to load.
    AssetLoad,
    /// A phonemizer emitted a symbol that the symbol table does not hold.
    UnknownSymbol,
    /// A text span's language has no configured converter.
    UnsupportedLanguage,
    /// A lookup named a speaker that was never enrolled.
    SpeakerNotFound,
    /// Segmentation (or the whole pipeline) produced nothing to synthesize.
    EmptyInput,
    /// The external inference runtime rejected its inputs or failed.
    RuntimeForward,
}

/// Configuration of one orchestrator: which language paths are enabled
/// and where their assets live.  The paths are consumed by whoever
/// constructs the [`InferenceRuntime`] implementation.
pub struct GPTSovitsConfig {
    pub cn_setting: Option<(String, String)>,
    pub g2p_en_path: String,
    pub ssl_path: String,
    pub enable_jp: bool,
}

impl GPTSovitsConfig {
    /// A configuration with only the Latin-alphabet path enabled.
    pub fn new(ssl_path: String, g2p_en_path: String) -> (c: GPTSovitsConfig)
        ensures
            c.cn_setting is None,
            c.g2p_en_path@ == g2p_en_path@,
            c.ssl_path@ == ssl_path@,
            !c.enable_jp,
    {
        GPTSovitsConfig { cn_setting: None, g2p_en_path, ssl_path, enable_jp: false }
    }

    /// Enables the CJK path with its phonemizer and embedding-model assets.
    pub fn with_chinese(self, g2pw_path: String, cn_bert_path: String) -> (c: GPTSovitsConfig)
        ensures
            c.cn_setting matches Some(s) && s.0@ == g2pw_path@ && s.1@ == cn_bert_path@,
            c.g2p_en_path@ == self.g2p_en_path@,
            c.ssl_path@ == self.ssl_path@,
            c.enable_jp == self.enable_jp,
    {
        GPTSovitsConfig {
            cn_setting: Some((g2pw_path, cn_bert_path)),
            g2p_en_path: self.g2p_en_path,
            ssl_path: self.ssl_path,
            enable_jp: self.enable_jp,
        }
    }

    /// Enables or disables the optional kana path.
    pub fn with_jp(self, enable_jp: bool) -> (c: GPTSovitsConfig)
        ensures
            c.cn_setting == self.cn_setting,
            c.g2p_en_path@ == self.g2p_en_path@,
            c.ssl_path@ == self.ssl_path@,
            c.enable_jp == enable_jp,
    {
        GPTSovitsConfig { enable_jp, ..self }
    }

    /// Assembles an orchestrator over an already-constructed runtime and
    /// the symbol list its phonemizers can emit.
    ///
    /// The registry starts empty; the CJK path is enabled exactly when
    /// the configuration carries a CJK setting.
    pub fn build<R: InferenceRuntime>(&self, runtime: R, symbols: Vec<String>) -> (g: GPTSovits<R>)
        requires
            symbols@.len() <= i64::MAX,
        ensures
            g.wf(),
            g.symbols.wf(),
            g.rt() == runtime,
            g.zh_on() == self.cn_setting is Some,
            g.jp_on() == self.enable_jp,
            forall|n: Seq<char>| g.spk_lookup(n) is None,
            forall|i: int|
                0 <= i < symbols@.len() ==> crate::symbols::lookup_in(
                    g.symbols_view(),
                    #[trigger] symbols@[i]@,
                ) is Some,
    {
        let zh_enabled = self.cn_setting.is_some();
        let g = GPTSovits {
            runtime,
            symbols: SymbolTable::from_symbols(&symbols),
            jieba: WordSegmenter::new(),
            speakers: Vec::new(),
            zh_enabled,
            enable_jp: self.enable_jp,
        };
        proof {
            assert(forall|n: Seq<char>| g.spk_lookup(n) is None);
        }
        g
    }
}

/// One enrolled speaker: an immutable reference feature bundle cached at
/// enrollment, plus the speaker's own synthesis model handle.
pub struct Speaker<M> {
    pub name: String,
    pub gpt_sovits: M,
    pub ref_text: String,
    pub ssl_content: AudioTensor,
    pub ref_audio_32k: AudioTensor,
    pub ref_phone_seq: Vec<i64>,
    pub ref_bert_seq: BertSeq,
}

impl<M> Speaker<M> {
    /// The name the speaker was enrolled under.
    pub open spec fn name_spec(self) -> Seq<char> {
        self.name@
    }

    /// The normalized enrollment transcript.
    pub open spec fn ref_text_spec(self) -> Seq<char> {
        self.ref_text@
    }

    /// The cached acoustic feature sequence of the reference audio.
    pub open spec fn ssl_view(self) -> Seq<u32> {
        self.ssl_content@
    }

    /// The reference audio resampled to 32 kHz.
    pub open spec fn ref_audio_32k_view(self) -> Seq<u32> {
        self.ref_audio_32k@
    }

    /// The phoneme-id sequence of the enrollment transcript.
    pub open spec fn ref_phone_view(self) -> Seq<i64> {
        self.ref_phone_seq@
    }

    /// The embedding sequence of the enrollment transcript.
    pub open spec fn ref_bert_view(self) -> Seq<Seq<u32>> {
        self.ref_bert_seq@
    }

    pub fn get_name(&self) -> (r: &str)
        ensures
            r@ == self.name_spec(),
    {
        self.name.as_str()
    }

    pub fn get_ref_text(&self) -> (r: &str)
        ensures
            r@ == self.ref_text_spec(),
    {
        self.ref_text.as_str()
    }

    pub fn get_ref_audio_32k(&self) -> (r: &AudioTensor)
        ensures
            r@ == self.ref_audio_32k_view(),
    {
        &self.ref_audio_32k
    }

    /// Forward synthesis for new target sequences against this speaker's
    /// cached reference bundle.
    ///
    /// Hands the runtime exactly the six inputs the synthesis model
    /// consumes, in order: cached acoustic features, 32 kHz reference
    /// audio, reference phoneme ids, target phoneme ids, reference
    /// embeddings, target embeddings.  The speaker itself is never
    /// mutated, so one record may serve concurrent calls.
    pub fn infer<R: InferenceRuntime<Model = M>>(
        &self,
        runtime: &R,
        text_phone_seq: &Vec<i64>,
        bert_seq: &BertSeq,
    ) -> (r: Result<AudioTensor, TtsError>)
        ensures
            r matches Err(e) ==> e == TtsError::RuntimeForward,
    {
        runtime.forward(
            &self.gpt_sovits,
            &self.ssl_content,
            &self.ref_audio_32k,
            &self.ref_phone_seq,
            text_phone_seq,
            &self.ref_bert_seq,
            bert_seq,
        )
    }
}

/// The first speaker named `name` among `ss`, if any.
pub open spec fn reg_lookup<M>(ss: Seq<Speaker<M>>, name: Seq<char>) -> Option<Speaker<M>>
    decreases ss.len(),
{
    if ss.len() == 0 {
        None
    } else if ss[0].name@ == name {
        Some(ss[0])
    } else {
        reg_lookup(ss.drop_first(), name)
    }
}

/// `ss` with `sp` in place of the first speaker of the same name, or
/// appended if the name is new.
pub open spec fn reg_replace<M>(ss: Seq<Speaker<M>>, sp: Speaker<M>) -> Seq<Speaker<M>>
    decreases ss.len(),
{
    if ss.len() == 0 {
        seq![sp]
    } else if ss[0].name@ == sp.name@ {
        seq![sp] + ss.drop_first()
    } else {
        seq![ss[0]] + reg_replace(ss.drop_first(), sp)
    }
}

/// Enrollment under a name replaces the prior record: a later lookup of
/// that name finds exactly the new record, and every other name resolves
/// as before.
pub proof fn lemma_reg_lookup_replace<M>(ss: Seq<Speaker<M>>, sp: Speaker<M>, name: Seq<char>)
    ensures
        reg_lookup(reg_replace(ss, sp), name) == if name == sp.name_spec() {
            Some(sp)
        } else {
            reg_lookup(ss, name)
        },
    decreases ss.len(),
{
    if ss.len() == 0 {
        assert(reg_replace(ss, sp) == seq![sp]);
        assert(seq![sp][0] == sp);
        assert(seq![sp].drop_first() =~= Seq::<Speaker<M>>::empty());
        if name == sp.name@ {
            assert(reg_lookup(reg_replace(ss, sp), name) == Some(sp));
        } else {
            assert(reg_lookup(seq![sp], name) == reg_lookup(seq![sp].drop_first(), name));
            assert(reg_lookup(reg_replace(ss, sp), name) == reg_lookup(ss, name));
        }
    } else if ss[0].name@ == sp.name@ {
        assert((seq![sp] + ss.drop_first())[0] == sp);
        assert((seq![sp] + ss.drop_first()).drop_first() =~= ss.drop_first());
        if name == sp.name@ {
            assert(reg_lookup(reg_replace(ss, sp), name) == Some(sp));
        } else {
            lemma_reg_lookup_same_head(ss, sp, name);
            assert(reg_lookup(reg_replace(ss, sp), name) == reg_lookup(ss, name));
        }
    } else {
        assert((seq![ss[0]] + reg_replace(ss.drop_first(), sp))[0] == ss[0]);
        assert((seq![ss[0]] + reg_replace(ss.drop_first(), sp)).drop_first() =~= reg_replace(
            ss.drop_first(),
            sp,
        ));
        lemma_reg_lookup_replace(ss.drop_first(), sp, name);
        if name == sp.name@ {
            assert(reg_lookup(reg_replace(ss, sp), name) == Some(sp));
        } else {
            assert(reg_lookup(reg_replace(ss, sp), name) == reg_lookup(ss, name));
        }
    }
}

/// Replacing the head of a registry does not change lookups of other names.
proof fn lemma_reg_lookup_same_head<M>(ss: Seq<Speaker<M>>, sp: Speaker<M>, name: Seq<char>)
    requires
        ss.len() > 0,
        ss[0].name@ == sp.name@,
        name != sp.name@,
    ensures
        reg_lookup(seq![sp] + ss.drop_first(), name) == reg_lookup(ss, name),
{
    assert((seq![sp] + ss.drop_first())[0] == sp);
    assert((seq![sp] + ss.drop_first()).drop_first() =~= ss.drop_first());
}

/// The orchestrator: the loaded runtime, the symbol table, the word
/// segmenter, the configured language paths and the speaker registry.
pub struct GPTSovits<R: InferenceRuntime> {
    pub runtime: R,
    pub symbols: SymbolTable,
    pub jieba: WordSegmenter,
    pub speakers: Vec<Speaker<R::Model>>,
    pub zh_enabled: bool,
    pub enable_jp: bool,
}

impl<R: InferenceRuntime> GPTSovits<R> {
    /// The runtime the orchestrator drives.
    pub open spec fn rt(&self) -> R {
        self.runtime
    }

    /// Whether the CJK path is configured.
    pub open spec fn zh_on(&self) -> bool {
        self.zh_enabled
    }

    /// Whether the optional kana path is configured.
    pub open spec fn jp_on(&self) -> bool {
        self.enable_jp
    }

    /// The symbol table's entries.
    pub open spec fn symbols_view(&self) -> Seq<(Seq<char>, i64)> {
        self.symbols.entries_view()
    }

    /// The speaker registry, in insertion order.
    pub open spec fn reg(&self) -> Seq<Speaker<R::Model>> {
        self.speakers@
    }

    /// The enrolled speaker of that name, if any.
    pub open spec fn spk_lookup(&self, name: Seq<char>) -> Option<Speaker<R::Model>> {
        reg_lookup(self.reg(), name)
    }

    /// Whether a speaker of that name is enrolled.
    pub open spec fn has_speaker(&self, name: Seq<char>) -> bool {
        self.spk_lookup(name) is Some
    }

    /// Registry keys are unique.
    pub open spec fn wf(&self) -> bool {
        forall|i: int, j: int|
            0 <= i < j < self.speakers@.len() ==> (#[trigger] self.speakers@[i]).name@ != (
            #[trigger] self.speakers@[j]).name@
    }

    /// What [`GPTSovits::infer`] and enrollment derive for a text under
    /// this orchestrator's configuration.
    pub open spec fn g2p_spec(&self, s: Seq<char>) -> Result<(Seq<i64>, Seq<Seq<u32>>), TtsError> {
        g2p_text(self.rt(), self.zh_on(), self.jp_on(), self.symbols_view(), s)
    }

    /// Assembles an orchestrator from its parts with an empty registry.
    pub fn new(
        runtime: R,
        symbols: SymbolTable,
        jieba: WordSegmenter,
        zh_enabled: bool,
        enable_jp: bool,
    ) -> (g: GPTSovits<R>)
        ensures
            g.wf(),
            g.rt() == runtime,
            g.zh_on() == zh_enabled,
            g.jp_on() == enable_jp,
            g.symbols == symbols,
            g.symbols_view() == symbols.entries_view(),
            g.jieba == jieba,
            forall|n: Seq<char>| g.spk_lookup(n) is None,
    {
        GPTSovits { runtime, symbols, jieba, speakers: Vec::new(), zh_enabled, enable_jp }
    }

    /// The enrolled speaker of that name, if any.
    pub fn get_speaker(&self, name: &str) -> (r: Option<&Speaker<R::Model>>)
        ensures
            match r {
                Some(sp) => self.spk_lookup(name@) == Some(*sp),
                None => self.spk_lookup(name@) is None,
            },
    {
        let key = String::from_str(name);
        let mut i: usize = 0;
        proof {
            assert(self.reg().skip(0) =~= self.reg());
        }
        while i < self.speakers.len()
            invariant
                i <= self.speakers@.len(),
                key@ == name@,
                reg_lookup(self.reg().skip(i as int), name@) == self.spk_lookup(name@),
            decreases self.speakers@.len() - i,
        {
            proof {
                assert(self.reg().skip(i as int).drop_first() =~= self.reg().skip(i + 1));
                assert(self.reg().skip(i as int)[0] == self.reg()[i as int]);
            }
            if self.speakers[i].name == key {
                return Some(&self.speakers[i]);
            }
            i += 1;
        }
        proof {
            assert(self.reg().skip(self.reg().len() as int) =~= Seq::<Speaker<R::Model>>::empty());
        }
        None
    }

    /// Inserts `sp`, replacing any prior record of the same name.
    fn insert_speaker(&mut self, sp: Speaker<R::Model>)
        requires
            old(self).wf(),
        ensures
            final(self).wf(),
            final(self).reg() == reg_replace(old(self).reg(), sp),
            final(self).rt() == old(self).rt(),
            final(self).zh_on() == old(self).zh_on(),
            final(self).jp_on() == old(self).jp_on(),
            final(self).symbols_view() == old(self).symbols_view(),
            final(self).jieba == old(self).jieba,
    {
        let ghost orig = self.speakers@;
        let mut i: usize = 0;
        while i < self.speakers.len()
            invariant
                i <= self.speakers@.len(),
                *self == *old(self),
                orig == old(self).speakers@,
                old(self).wf(),
                forall|j: int| 0 <= j < i ==> (#[trigger] self.speakers@[j]).name@ != sp.name@,
            decreases self.speakers@.len() - i,
        {
            if self.speakers[i].name == sp.name {
                proof {
                    assert(orig == self.speakers@);
                    assert(orig[i as int].name@ == sp.name@);
                    lemma_reg_replace_at(orig, sp, i as int);
                }
                self.speakers.set(i, sp);
                proof {
                    assert(self.speakers@ == orig.update(i as int, sp));
                    assert forall|a: int, b: int|
                        0 <= a < b < self.speakers@.len() implies (
                    #[trigger] self.speakers@[a]).name@ != (#[trigger] self.speakers@[b]).name@ by {
                        assert(old(self).speakers@[a].name@ != old(self).speakers@[b].name@);
                    }
                }
                return ;
            }
            i += 1;
        }
        proof {
            assert(orig == self.speakers@);
            lemma_reg_replace_missing(orig, sp);
        }
        self.speakers.push(sp);
        proof {
            assert forall|a: int, b: int|
                0 <= a < b < self.speakers@.len() implies (#[trigger] self.speakers@[a]).name@ != (
            #[trigger] self.speakers@[b]).name@ by {
                if b < orig.len() {
                    assert(old(self).speakers@[a].name@ != old(self).speakers@[b].name@);
                } else {
                    assert(self.speakers@[b] == sp);
                    assert(self.speakers@[a] == orig[a]);
                }
            }
        }
    }

    /// Enrolls (or re-enrolls) a speaker from a reference utterance.
    ///
    /// All reference features are derived once, here: the transcript is
    /// normalized to end with a sentence terminator, the reference audio
    /// is resampled to 16 kHz (for acoustic feature extraction) and
    /// 32 kHz (for vocoder conditioning), the acoustic features are
    /// extracted from the 16 kHz copy, and the transcript's phoneme and
    /// embedding sequences are derived.  Any failure aborts enrollment
    /// with the registry untouched; on success the new record replaces
    /// any prior record of the same name and no other entry changes.
    pub fn create_speaker(
        &mut self,
        name: &str,
        gpt_sovits_path: &str,
        ref_audio: &AudioTensor,
        ref_audio_sr: usize,
        ref_text: &str,
    ) -> (r: Result<(), TtsError>)
        requires
            old(self).wf(),
        ensures
            final(self).wf(),
            final(self).rt() == old(self).rt(),
            final(self).zh_on() == old(self).zh_on(),
            final(self).jp_on() == old(self).jp_on(),
            final(self).symbols_view() == old(self).symbols_view(),
            final(self).jieba == old(self).jieba,
            r matches Err(_) ==> *final(self) == *old(self),
            r matches Err(e) ==> e != TtsError::SpeakerNotFound && e != TtsError::EmptyInput,
            r matches Err(e) ==> ((e != TtsError::RuntimeForward && e != TtsError::AssetLoad)
                ==> old(self).g2p_spec(normalized_text(ref_text@)) == Err::<
                (Seq<i64>, Seq<Seq<u32>>),
                _,
            >(e)),
            r matches Ok(_) ==> exists|sp: Speaker<R::Model>|
                {
                    &&& final(self).reg() == #[trigger] reg_replace(old(self).reg(), sp)
                    &&& sp.name_spec() == name@
                    &&& sp.ref_text_spec() == normalized_text(ref_text@)
                    &&& sp.ssl_view() == old(self).rt().ssl_spec(
                        old(self).rt().resample_spec(ref_audio@, ref_audio_sr as nat, 16000),
                    )
                    &&& sp.ref_audio_32k_view() == old(self).rt().resample_spec(
                        ref_audio@,
                        ref_audio_sr as nat,
                        32000,
                    )
                    &&& old(self).g2p_spec(normalized_text(ref_text@)) == Ok::<_, TtsError>(
                        (sp.ref_phone_view(), sp.ref_bert_view()),
                    )
                },
    {
        let model = match self.runtime.load_model(gpt_sovits_path) {
            Err(e) => {
                return Err(e);
            },
            Ok(m) => m,
        };
        let text_norm = normalize_ref_text(ref_text);
        let ref_audio_16k = match self.runtime.resample(ref_audio, ref_audio_sr, 16000) {
            Err(e) => {
                return Err(e);
            },
            Ok(a) => a,
        };
        let ref_audio_32k = match self.runtime.resample(ref_audio, ref_audio_sr, 32000) {
            Err(e) => {
                return Err(e);
            },
            Ok(a) => a,
        };
        let ssl_content = match self.runtime.extract_ssl(&ref_audio_16k) {
            Err(e) => {
                return Err(e);
            },
            Ok(a) => a,
        };
        let (ref_phone_seq, ref_bert_seq) = match get_phone_and_bert(&*self, text_norm.as_str()) {
            Err(e) => {
                return Err(e);
            },
            Ok(pb) => pb,
        };
        let speaker = Speaker {
            name: String::from_str(name),
            gpt_sovits: model,
            ref_text: text_norm,
            ssl_content,
            ref_audio_32k,
            ref_phone_seq,
            ref_bert_seq,
        };
        let ghost witness = speaker;
        self.insert_speaker(speaker);
        proof {
            assert(final(self).reg() == reg_replace(old(self).reg(), witness));
        }
        Ok(())
    }

    /// Resamples an audio buffer through the runtime.  Only enrollment
    /// audio is ever resampled; the synthesis path never calls this.
    pub fn resample(&self, audio: &AudioTensor, sr: usize, target_sr: usize) -> (r: Result<
        AudioTensor,
        TtsError,
    >)
        ensures
            r matches Ok(a) ==> a@ == self.rt().resample_spec(audio@, sr as nat, target_sr as nat),
            r matches Err(e) ==> e == TtsError::RuntimeForward,
    {
        self.runtime.resample(audio, sr, target_sr)
    }

    /// Generates an audio buffer for `target_text` in the enrolled voice
    /// of `speaker`.
    ///
    /// Fails with [`TtsError::SpeakerNotFound`] exactly when no speaker
    /// of that name is enrolled.  Otherwise the target sequences are
    /// derived deterministically ([`GPTSovits::g2p_spec`]) and handed,
    /// with the speaker's cached reference bundle, to forward synthesis;
    /// only the runtime itself can fail after that.
    pub fn infer(&self, speaker: &str, target_text: &str) -> (r: Result<AudioTensor, TtsError>)
        ensures
            !self.has_speaker(speaker@) <==> r == Err::<AudioTensor, _>(TtsError::SpeakerNotFound),
            r matches Ok(_) ==> self.g2p_spec(target_text@) is Ok,
            r matches Err(e) ==> e != TtsError::EmptyInput,
            r matches Err(e) ==> ((e != TtsError::SpeakerNotFound && e != TtsError::RuntimeForward
                && e != TtsError::AssetLoad) ==> self.g2p_spec(target_text@) == Err::<
                (Seq<i64>, Seq<Seq<u32>>),
                _,
            >(e)),
    {
        let sp = match self.get_speaker(speaker) {
            None => {
                return Err(TtsError::SpeakerNotFound);
            },
            Some(sp) => sp,
        };
        let (phone_seq, bert_seq) = match get_phone_and_bert(self, target_text) {
            Err(e) => {
                return Err(e);
            },
            Ok(pb) => pb,
        };
        sp.infer(&self.runtime, &phone_seq, &bert_seq)
    }

    /// Segments `target_text` under the soft chunk budget (0 stands for
    /// the default of 50), synthesizes each fragment in order, and
    /// concatenates the audio chunks in fragment order.
    ///
    /// Yields [`TtsError::EmptyInput`] exactly when segmentation produces
    /// no fragments, and [`TtsError::SpeakerNotFound`] exactly when there
    /// are fragments but no speaker of that name; a conversion error is
    /// one that some fragment's grapheme-to-phoneme stage yields.  A
    /// failure on any single fragment aborts the whole request, so no
    /// partial result is ever returned.
    pub fn segment_infer(&self, speaker: &str, target_text: &str, split_chunk_size: usize) -> (r:
        Result<AudioTensor, TtsError>)
        ensures
            ({
                let frags = fragments_of(target_text@, split_chunk_size as nat);
                &&& (r == Err::<AudioTensor, _>(TtsError::EmptyInput) <==> frags.len() == 0)
                &&& (r == Err::<AudioTensor, _>(TtsError::SpeakerNotFound) <==> frags.len() > 0
                    && !self.has_speaker(speaker@))
                &&& (r matches Err(e) ==> ((e == TtsError::UnknownSymbol || e
                    == TtsError::UnsupportedLanguage) ==> exists|i: int|
                    0 <= i < frags.len() && self.g2p_spec(#[trigger] frags[i]) == Err::<
                        (Seq<i64>, Seq<Seq<u32>>),
                        _,
                    >(e)))
                &&& (r matches Ok(a) ==> self.has_speaker(speaker@) && exists|
                    parts: Seq<Seq<u32>>,
                |
                    parts.len() == frags.len() && a@ == #[trigger] parts.flatten())
            }),
    {
        let ghost frags = fragments_of(target_text@, split_chunk_size as nat);
        let chunks = split_text(target_text, split_chunk_size);
        proof {
            assert(chunks.deep_view().len() == chunks@.len());
        }
        let mut audios: Vec<AudioTensor> = Vec::new();
        let mut i: usize = 0;
        while i < chunks.len()
            invariant
                i <= chunks@.len(),
                frags == fragments_of(target_text@, split_chunk_size as nat),
                chunks.deep_view() == frags,
                chunks@.len() == frags.len(),
                audios@.len() == i,
                i > 0 ==> self.has_speaker(speaker@),
            decreases chunks@.len() - i,
        {
            match self.infer(speaker, chunks[i].as_str()) {
                Err(e) => {
                    proof {
                        if e == TtsError::UnknownSymbol || e == TtsError::UnsupportedLanguage {
                            assert(frags[i as int] == chunks@[i as int]@);
                            assert(self.g2p_spec(frags[i as int]) == Err::<
                                (Seq<i64>, Seq<Seq<u32>>),
                                _,
                            >(e));
                        }
                    }
                    return Err(e);
                },
                Ok(a) => {
                    audios.push(a);
                },
            }
            i += 1;
        }
        if audios.len() > 0 {
            let out = concat_audio(&audios);
            proof {
                assert(chunk_views(audios@).len() == frags.len());
                assert(exists|parts: Seq<Seq<u32>>|
                    parts.len() == frags.len() && out@ == #[trigger] parts.flatten()) by {
                    assert(out@ == chunk_views(audios@).flatten());
                }
            }
            Ok(out)
        } else {
            Err(TtsError::EmptyInput)
        }
    }
}

/// `reg_replace` is an update at the first index carrying the name.
proof fn lemma_reg_replace_at<M>(ss: Seq<Speaker<M>>, sp: Speaker<M>, i: int)
    requires
        0 <= i < ss.len(),
        ss[i].name@ == sp.name@,
        forall|j: int| 0 <= j < i ==> (#[trigger] ss[j]).name@ != sp.name@,
    ensures
        reg_replace(ss, sp) == ss.update(i, sp),
    decreases i,
{
    if i == 0 {
        assert(seq![sp] + ss.drop_first() =~= ss.update(0, sp));
    } else {
        assert(ss.drop_first()[i - 1].name@ == sp.name@);
        assert forall|j: int| 0 <= j < i - 1 implies (#[trigger] ss.drop_first()[j]).name@
            != sp.name@ by {
            assert(ss.drop_first()[j] == ss[j + 1]);
        }
        lemma_reg_replace_at(ss.drop_first(), sp, i - 1);
        assert(seq![ss[0]] + ss.drop_first().update(i - 1, sp) =~= ss.update(i, sp));
    }
}

/// `reg_replace` is an append when the name is new.
proof fn lemma_reg_replace_missing<M>(ss: Seq<Speaker<M>>, sp: Speaker<M>)
    requires
        forall|j: int| 0 <= j < ss.len() ==> (#[trigger] ss[j]).name@ != sp.name@,
    ensures
        reg_replace(ss, sp) == ss.push(sp),
    decreases ss.len(),
{
    if ss.len() == 0 {
        assert(seq![sp] =~= ss.push(sp));
    } else {
        assert forall|j: int| 0 <= j < ss.drop_first().len() implies (#[trigger] ss.drop_first()[j]).name@
            != sp.name@ by {
            assert(ss.drop_first()[j] == ss[j + 1]);
        }
        lemma_reg_replace_missing(ss.drop_first(), sp);
        assert(seq![ss[0]] + ss.drop_first().push(sp) =~= ss.push(sp));
    }
}

/// The transcript normalized to end with a sentence terminator, so that
/// the first word of later synthesis is not clipped by the model's
/// attention bias.
pub open spec fn normalized_text(s: Seq<char>) -> Seq<char> {
    if s.len() > 0 && (s.last() == '\u{3002}' || s.last() == '.') {
        s
    } else {
        s + seq!['.']
    }
}

/// Appends a full stop unless the transcript already ends with one.
fn normalize_ref_text(ref_text: &str) -> (t: String)
    ensures
        t@ == normalized_text(ref_text@),
{
    let n = ref_text.unicode_len();
    if n > 0 {
        let last = ref_text.get_char(n - 1);
        if last == '\u{3002}' || last == '.' {
            return String::from_str(ref_text);
        }
    }
    let t = String::from_str(ref_text).concat(".");
    proof {
        reveal_strlit(".");
        assert("."@ =~= seq!['.']);
    }
    t
}

} // verus!
