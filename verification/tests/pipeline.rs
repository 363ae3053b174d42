use gpt_sovits::audio::AudioTensor;
use gpt_sovits::g2p::{get_phone_and_bert, BertSeq};
use gpt_sovits::runtime::InferenceRuntime;
use gpt_sovits::{GPTSovits, GPTSovitsConfig, TtsError};
use vstd::prelude::nat;
use vstd::prelude::Seq;

/// A deterministic stand-in for the neural runtime: every operation is a
/// pure function of its inputs, so the pipeline's contracts can be
/// exercised end to end.
struct FakeRuntime {
    dim: usize,
}

const DIM: usize = 4;

fn word_phones(text: &str) -> Vec<String> {
    text.split_whitespace()
        .map(|w| {
            w.chars()
                .filter(|c| c.is_alphabetic())
                .collect::<String>()
                .to_lowercase()
        })
        .filter(|w| !w.is_empty())
        .collect()
}

impl InferenceRuntime for FakeRuntime {
    type Model = String;

    // The trait's ghost specification items are erased before anything
    // runs; stubs satisfy the compiled signatures.
    fn resample_spec(
        &self,
        _audio: Seq<u32>,
        _source_rate: nat,
        _target_rate: nat,
    ) -> Seq<u32> {
        panic!()
    }

    fn ssl_spec(&self, _audio_16k: Seq<u32>) -> Seq<u32> {
        panic!()
    }

    fn zh_phones_spec(&self, _words: Seq<Seq<char>>) -> Seq<Seq<char>> {
        panic!()
    }

    fn zh_bert_spec(&self, _words: Seq<Seq<char>>) -> Seq<Seq<u32>> {
        panic!()
    }

    fn en_phones_spec(&self, _text: Seq<char>) -> Seq<Seq<char>> {
        panic!()
    }

    fn jp_phones_spec(&self, _text: Seq<char>) -> Seq<Seq<char>> {
        panic!()
    }

    fn bert_dim(&self) -> nat {
        panic!()
    }

    fn embedding_dim(&self) -> usize {
        self.dim
    }

    fn load_model(&self, path: &str) -> Result<String, TtsError> {
        if path == "missing" {
            Err(TtsError::AssetLoad)
        } else {
            Ok(path.to_string())
        }
    }

    fn resample(
        &self,
        audio: &AudioTensor,
        source_rate: usize,
        target_rate: usize,
    ) -> Result<AudioTensor, TtsError> {
        if source_rate == 0 || target_rate == 0 {
            return Err(TtsError::RuntimeForward);
        }
        let n_out = audio.samples.len() * target_rate / source_rate;
        let samples = (0..n_out)
            .map(|i| audio.samples[i * source_rate / target_rate])
            .collect();
        Ok(AudioTensor::new(samples))
    }

    fn extract_ssl(&self, audio_16k: &AudioTensor) -> Result<AudioTensor, TtsError> {
        Ok(AudioTensor::new(
            audio_16k.samples.iter().map(|s| s ^ 1).collect(),
        ))
    }

    fn convert_zh(&self, words: &Vec<String>) -> Result<(Vec<String>, BertSeq), TtsError> {
        let phones: Vec<String> = words.clone();
        let rows: Vec<Vec<u32>> = words
            .iter()
            .map(|w| {
                let mut row = vec![0u32; self.dim];
                row[0] = w.chars().count() as u32;
                row
            })
            .collect();
        Ok((phones, BertSeq::new(rows)))
    }

    fn convert_en(&self, text: &str) -> Result<Vec<String>, TtsError> {
        Ok(word_phones(text))
    }

    fn convert_jp(&self, text: &str) -> Result<Vec<String>, TtsError> {
        Ok(text
            .chars()
            .filter(|c| !c.is_whitespace())
            .map(|c| format!("jp_{c}"))
            .collect())
    }

    fn forward(
        &self,
        _model: &String,
        _ssl_content: &AudioTensor,
        _ref_audio_32k: &AudioTensor,
        _ref_phone_seq: &Vec<i64>,
        text_phone_seq: &Vec<i64>,
        _ref_bert_seq: &BertSeq,
        _text_bert_seq: &BertSeq,
    ) -> Result<AudioTensor, TtsError> {
        Ok(AudioTensor::new(
            text_phone_seq.iter().map(|id| *id as u32).collect(),
        ))
    }
}

fn en_symbols() -> Vec<String> {
    [
        "hello", "world", "sentence", "one", "two", "three", "how", "are", "you", "fine",
    ]
    .iter()
    .map(|s| s.to_string())
    .collect()
}

fn build_en() -> GPTSovits<FakeRuntime> {
    let config = GPTSovitsConfig::new("ssl.pt".into(), "g2p_en".into());
    config.build(FakeRuntime { dim: DIM }, en_symbols())
}

fn three_second_buffer() -> AudioTensor {
    AudioTensor::new((0..132_300u32).collect())
}

#[test]
fn enroll_stores_normalized_transcript_and_resampled_copies() {
    let mut g = build_en();
    g.create_speaker("bob", "bob.pt", &three_second_buffer(), 44_100, "Hello world")
        .unwrap();
    let sp = g.get_speaker("bob").unwrap();
    assert_eq!(sp.get_name(), "bob");
    assert_eq!(sp.get_ref_text(), "Hello world.");
    // 3 s at 44.1 kHz resampled to 32 kHz: 96000 samples retained for the vocoder.
    assert_eq!(sp.get_ref_audio_32k().len(), 96_000);
    // the acoustic features were extracted from the 16 kHz copy (48000 samples,
    // which the fake feature extractor preserves one for one)
    assert_eq!(sp.ssl_content.len(), 48_000);
}

#[test]
fn enroll_keeps_existing_terminal_punctuation() {
    let mut g = build_en();
    g.create_speaker("bob", "bob.pt", &three_second_buffer(), 44_100, "Hello world.")
        .unwrap();
    assert_eq!(g.get_speaker("bob").unwrap().get_ref_text(), "Hello world.");
}

#[test]
fn enroll_twice_replaces_the_record() {
    let mut g = build_en();
    g.create_speaker("A", "one.pt", &three_second_buffer(), 44_100, "Hello world")
        .unwrap();
    g.create_speaker("A", "two.pt", &AudioTensor::new(vec![7; 4410]), 44_100, "Fine")
        .unwrap();
    let sp = g.get_speaker("A").unwrap();
    assert_eq!(sp.get_ref_text(), "Fine.");
    assert_eq!(sp.get_ref_audio_32k().len(), 3_200);
}

#[test]
fn infer_unknown_speaker_is_an_error() {
    let g = build_en();
    assert!(matches!(
        g.infer("ghost", "hello"),
        Err(TtsError::SpeakerNotFound)
    ));
}

#[test]
fn segment_infer_empty_text_is_empty_input_error() {
    let mut g = build_en();
    g.create_speaker("A", "a.pt", &three_second_buffer(), 44_100, "Hello world")
        .unwrap();
    assert!(matches!(
        g.segment_infer("A", "", 10),
        Err(TtsError::EmptyInput)
    ));
}

#[test]
fn segment_infer_concatenates_chunk_audio_in_order() {
    let mut g = build_en();
    g.create_speaker("bob", "bob.pt", &three_second_buffer(), 44_100, "Hello world")
        .unwrap();
    let audio = g
        .segment_infer("bob", "Sentence one. Sentence two. Sentence three.", 15)
        .unwrap();
    // Per chunk the fake synthesizer emits one sample per phoneme id, so the
    // result is the three chunks' phoneme ids laid end to end in chunk order.
    let ids = |words: &[&str]| -> Vec<u32> {
        let table = en_symbols();
        words
            .iter()
            .map(|w| table.iter().position(|s| s == w).unwrap() as u32)
            .collect::<Vec<u32>>()
    };
    let mut expected = ids(&["sentence", "one"]);
    expected.extend(ids(&["sentence", "two"]));
    expected.extend(ids(&["sentence", "three"]));
    assert_eq!(audio.samples, expected);
}

#[test]
fn segment_infer_zero_chunk_size_behaves_like_fifty() {
    let mut g = build_en();
    g.create_speaker("bob", "bob.pt", &three_second_buffer(), 44_100, "Hello world")
        .unwrap();
    let text = "Sentence one. Sentence two. Sentence three.";
    let a = g.segment_infer("bob", text, 0).unwrap();
    let b = g.segment_infer("bob", text, 50).unwrap();
    assert_eq!(a.samples, b.samples);
}

#[test]
fn g2p_stage_is_deterministic() {
    let g = build_en();
    let (ids1, bert1) = get_phone_and_bert(&g, "Hello world. How are you?").unwrap();
    let (ids2, bert2) = get_phone_and_bert(&g, "Hello world. How are you?").unwrap();
    assert_eq!(ids1, ids2);
    assert_eq!(bert1.rows, bert2.rows);
    assert_eq!(ids1.len(), bert1.rows.len());
    for row in &bert1.rows {
        assert_eq!(row.len(), DIM);
    }
}

#[test]
fn failed_enrollment_leaves_registry_untouched() {
    let mut g = build_en();
    assert!(matches!(
        g.create_speaker("A", "missing", &three_second_buffer(), 44_100, "Hello world"),
        Err(TtsError::AssetLoad)
    ));
    assert!(g.get_speaker("A").is_none());
}

#[test]
fn unknown_phoneme_aborts_the_request() {
    let mut g = build_en();
    g.create_speaker("A", "a.pt", &three_second_buffer(), 44_100, "Hello world")
        .unwrap();
    assert!(matches!(
        g.infer("A", "unlisted"),
        Err(TtsError::UnknownSymbol)
    ));
}

#[test]
fn undetected_script_is_unsupported() {
    let mut g = build_en();
    g.create_speaker("A", "a.pt", &three_second_buffer(), 44_100, "Hello world")
        .unwrap();
    assert!(matches!(
        g.infer("A", "12345"),
        Err(TtsError::UnsupportedLanguage)
    ));
}

#[test]
fn kana_needs_the_optional_path_enabled() {
    let mut g = build_en();
    g.create_speaker("A", "a.pt", &three_second_buffer(), 44_100, "Hello world")
        .unwrap();
    assert!(matches!(
        g.infer("A", "\u{3053}\u{3093}"),
        Err(TtsError::UnsupportedLanguage)
    ));

    let config = GPTSovitsConfig::new("ssl.pt".into(), "g2p_en".into()).with_jp(true);
    let mut syms = en_symbols();
    syms.push("jp_\u{3053}".into());
    syms.push("jp_\u{3093}".into());
    let mut g2 = config.build(FakeRuntime { dim: DIM }, syms);
    g2.create_speaker("A", "a.pt", &three_second_buffer(), 44_100, "Hello world")
        .unwrap();
    assert!(g2.infer("A", "\u{3053}\u{3093}").is_ok());
}

#[test]
fn cjk_path_segments_words_before_phonemization() {
    let config = GPTSovitsConfig::new("ssl.pt".into(), "g2p_en".into())
        .with_chinese("g2pw.pt".into(), "bert.pt".into());
    let mut syms = en_symbols();
    syms.push("\u{4f60}\u{597d}".into()); // a two-character word the segmenter must find
    syms.push("\u{4e16}\u{754c}".into());
    let g = config.build(FakeRuntime { dim: DIM }, syms.clone());
    let (ids, bert) = get_phone_and_bert(&g, "\u{4f60}\u{597d}\u{4e16}\u{754c}").unwrap();
    let pos = |w: &str| syms.iter().position(|s| s == w).unwrap() as i64;
    assert_eq!(
        ids,
        vec![
            pos("\u{4f60}\u{597d}"),
            pos("\u{4e16}\u{754c}")
        ]
    );
    // one embedding row per phoneme, first component carries the word length
    assert_eq!(bert.rows.len(), 2);
    assert_eq!(bert.rows[0][0], 2);
}

#[test]
fn mixed_script_request_is_flattened_in_order() {
    let config = GPTSovitsConfig::new("ssl.pt".into(), "g2p_en".into())
        .with_chinese("g2pw.pt".into(), "bert.pt".into());
    let mut syms = en_symbols();
    syms.push("\u{4f60}\u{597d}".into());
    let g = config.build(FakeRuntime { dim: DIM }, syms.clone());
    let (ids, bert) = get_phone_and_bert(&g, "hello \u{4f60}\u{597d}").unwrap();
    let en_id = syms.iter().position(|s| s == "hello").unwrap() as i64;
    let zh_id = syms.iter().position(|s| s == "\u{4f60}\u{597d}").unwrap() as i64;
    assert_eq!(ids, vec![en_id, zh_id]);
    assert_eq!(bert.rows.len(), 2);
    // the Latin run carries zero rows, the CJK run its contextual rows
    assert_eq!(bert.rows[0], vec![0; DIM]);
    assert_eq!(bert.rows[1][0], 2);
}

#[test]
fn resample_runtime_failure_is_reported() {
    let g = build_en();
    assert!(matches!(
        g.resample(&AudioTensor::new(vec![1, 2, 3]), 0, 16_000),
        Err(TtsError::RuntimeForward)
    ));
}

#[test]
fn cjk_text_without_the_cjk_path_is_unsupported() {
    let mut g = build_en();
    g.create_speaker("A", "a.pt", &three_second_buffer(), 44_100, "Hello world")
        .unwrap();
    assert!(matches!(
        g.infer("A", "\u{4f60}\u{597d}"),
        Err(TtsError::UnsupportedLanguage)
    ));
}

#[test]
fn segment_infer_unknown_speaker_on_nonempty_text() {
    let g = build_en();
    assert!(matches!(
        g.segment_infer("ghost", "Hello world.", 10),
        Err(TtsError::SpeakerNotFound)
    ));
}

#[test]
fn segment_infer_propagates_a_fragment_conversion_error() {
    let mut g = build_en();
    g.create_speaker("A", "a.pt", &three_second_buffer(), 44_100, "Hello world")
        .unwrap();
    assert!(matches!(
        g.segment_infer("A", "Hello world. Something unlisted.", 15),
        Err(TtsError::UnknownSymbol)
    ));
}
