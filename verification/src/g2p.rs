//! Language-routed grapheme-to-phoneme conversion.
//!
//! Input text is scanned into maximal same-script runs; each run is routed
//! to the converter configured for its script and yields phoneme symbols
//! plus an index-aligned contextual embedding row per phoneme (an all-zero
//! row of the uniform width where the script's converter supplies none).
//! The per-run outputs are flattened, in order, into one phoneme-id
//! sequence and one aligned embedding sequence.  A run whose script cannot
//! be detected, or whose converter was never configured, aborts the
//! request; it is never skipped silently.

use vstd::prelude::*;
use vstd::string::StrSliceExecFns;
use crate::runtime::InferenceRuntime;
use crate::symbols::ids_of;
use crate::text::chars_of;
use crate::GPTSovits;
use crate::TtsError;

verus! {

/// The scripts the pipeline can route.
#[derive(Clone, Copy, Debug, PartialEq, Eq, Structural)]
pub enum Lang {
    /// CJK ideographs, converted through the word-segmented CJK path.
    Zh,
    /// Latin-alphabet text.
    En,
    /// Kana text, available when the optional third path is enabled.
    Jp,
}

/// An embedding sequence: one fixed-width numeric row per phoneme, each
/// value held as the bit pattern of one 32-bit float.
pub struct BertSeq {
    pub rows: Vec<Vec<u32>>,
}

impl View for BertSeq {
    type V = Seq<Seq<u32>>;

    open spec fn view(&self) -> Seq<Seq<u32>> {
        self.rows@.map_values(|r: Vec<u32>| r@)
    }
}

/// The character sequences of a list of strings, in order.
pub open spec fn str_views(v: Seq<String>) -> Seq<Seq<char>> {
    v.map_values(|s: String| s@)
}

/// `n` embedding rows of width `dim`, all zero.
pub open spec fn zero_rows(n: nat, dim: nat) -> Seq<Seq<u32>> {
    Seq::new(n, |i: int| Seq::new(dim, |j: int| 0u32))
}

impl BertSeq {
    /// Every row has width `dim`.
    pub open spec fn wf(self, dim: nat) -> bool {
        forall|i: int| 0 <= i < self@.len() ==> (#[trigger] self@[i]).len() == dim
    }

    /// Wraps the given rows.
    pub fn new(rows: Vec<Vec<u32>>) -> (r: BertSeq)
        ensures
            r@ == rows@.map_values(|x: Vec<u32>| x@),
    {
        BertSeq { rows }
    }

    /// Number of rows.
    pub fn len(&self) -> (n: usize)
        ensures
            n == self@.len(),
    {
        self.rows.len()
    }

    /// `n` all-zero rows of width `dim`, for scripts whose converter
    /// supplies no contextual embeddings.
    pub fn zeros(n: usize, dim: usize) -> (r: BertSeq)
        ensures
            r@ == zero_rows(n as nat, dim as nat),
            r.wf(dim as nat),
            r@.len() == n,
    {
        let mut rows: Vec<Vec<u32>> = Vec::new();
        let mut i: usize = 0;
        proof {
            assert(rows@.map_values(|r: Vec<u32>| r@) =~~= zero_rows(0, dim as nat));
        }
        while i < n
            invariant
                i <= n,
                rows@.map_values(|r: Vec<u32>| r@) == zero_rows(i as nat, dim as nat),
            decreases n - i,
        {
            let mut row: Vec<u32> = Vec::new();
            let mut j: usize = 0;
            while j < dim
                invariant
                    j <= dim,
                    row@ == Seq::new(j as nat, |x: int| 0u32),
                decreases dim - j,
            {
                row.push(0);
                proof {
                    assert(row@ =~= Seq::new((j + 1) as nat, |x: int| 0u32));
                }
                j += 1;
            }
            let ghost prev_rows = rows@;
            let ghost row_view = row@;
            rows.push(row);
            proof {
                prev_rows.lemma_push_map_commute(|r: Vec<u32>| r@, rows@[i as int]);
                assert(rows@.map_values(|r: Vec<u32>| r@) == zero_rows(i as nat, dim as nat).push(
                    row_view,
                ));
                assert(zero_rows(i as nat, dim as nat).push(row_view) =~= zero_rows(
                    (i + 1) as nat,
                    dim as nat,
                ));
            }
            i += 1;
        }
        BertSeq { rows }
    }

    /// Appends `other`'s rows after this sequence's rows.
    pub fn append_rows(&mut self, other: BertSeq)
        ensures
            final(self)@ == old(self)@ + other@,
    {
        let ghost before = self@;
        let ghost more = other@;
        let mut o = other;
        self.rows.append(&mut o.rows);
        proof {
            assert(self@ =~~= before + more);
        }
    }
}

/// The script one character belongs to, if any; characters such as
/// digits, punctuation and whitespace are neutral and extend whatever run
/// they appear in.
pub open spec fn char_class(c: char) -> Option<Lang> {
    let u = c as u32;
    if (0x4e00 <= u && u <= 0x9fff) || (0x3400 <= u && u <= 0x4dbf) {
        Some(Lang::Zh)
    } else if 0x3040 <= u && u <= 0x30ff {
        Some(Lang::Jp)
    } else if (0x41 <= u && u <= 0x5a) || (0x61 <= u && u <= 0x7a) {
        Some(Lang::En)
    } else {
        None
    }
}

/// Exec mirror of [`char_class`].
fn class_of(c: char) -> (r: Option<Lang>)
    ensures
        r == char_class(c),
{
    let u = c as u32;
    if (0x4e00 <= u && u <= 0x9fff) || (0x3400 <= u && u <= 0x4dbf) {
        Some(Lang::Zh)
    } else if 0x3040 <= u && u <= 0x30ff {
        Some(Lang::Jp)
    } else if (0x41 <= u && u <= 0x5a) || (0x61 <= u && u <= 0x7a) {
        Some(Lang::En)
    } else {
        None
    }
}

/// Scans one same-script run of `s` from position `i` with the script
/// seen so far; yields the run's end position and its script.
pub open spec fn run_scan(s: Seq<char>, i: nat, cls: Option<Lang>) -> (nat, Option<Lang>)
    decreases s.len() - i,
{
    if i >= s.len() {
        (i, cls)
    } else {
        match char_class(s[i as int]) {
            None => run_scan(s, i + 1, cls),
            Some(c) => match cls {
                None => run_scan(s, i + 1, Some(c)),
                Some(a) => if a == c {
                    run_scan(s, i + 1, cls)
                } else {
                    (i, cls)
                },
            },
        }
    }
}

/// A run scan moves forward, stays inside the text, and always consumes
/// at least one character when it starts fresh.
pub proof fn lemma_run_scan_bounds(s: Seq<char>, i: nat, cls: Option<Lang>)
    requires
        i <= s.len(),
    ensures
        i <= run_scan(s, i, cls).0 <= s.len(),
        i < s.len() && cls is None ==> run_scan(s, i, cls).0 > i,
    decreases s.len() - i,
{
    if i < s.len() {
        match char_class(s[i as int]) {
            None => lemma_run_scan_bounds(s, i + 1, cls),
            Some(c) => match cls {
                None => lemma_run_scan_bounds(s, i + 1, Some(c)),
                Some(a) => if a == c {
                    lemma_run_scan_bounds(s, i + 1, cls)
                },
            },
        }
    }
}

/// What one run converts to: phoneme ids plus aligned embedding rows, or
/// the error that aborts the request.
pub open spec fn run_result<R: InferenceRuntime>(
    rt: R,
    zh_on: bool,
    jp_on: bool,
    entries: Seq<(Seq<char>, i64)>,
    cls: Option<Lang>,
    piece: Seq<char>,
) -> Result<(Seq<i64>, Seq<Seq<u32>>), TtsError> {
    match cls {
        None => Err(TtsError::UnsupportedLanguage),
        Some(Lang::Zh) => if !zh_on {
            Err(TtsError::UnsupportedLanguage)
        } else {
            let phones = rt.zh_phones_spec(jieba_words(piece));
            match ids_of(entries, phones) {
                None => Err(TtsError::UnknownSymbol),
                Some(ids) => Ok((ids, rt.zh_bert_spec(jieba_words(piece)))),
            }
        },
        Some(Lang::En) => {
            let phones = rt.en_phones_spec(piece);
            match ids_of(entries, phones) {
                None => Err(TtsError::UnknownSymbol),
                Some(ids) => Ok((ids, zero_rows(phones.len(), rt.bert_dim()))),
            }
        },
        Some(Lang::Jp) => if !jp_on {
            Err(TtsError::UnsupportedLanguage)
        } else {
            let phones = rt.jp_phones_spec(piece);
            match ids_of(entries, phones) {
                None => Err(TtsError::UnknownSymbol),
                Some(ids) => Ok((ids, zero_rows(phones.len(), rt.bert_dim()))),
            }
        },
    }
}

/// What a whole text converts to: the per-run results flattened in run
/// order, or the first error in run order.
pub open spec fn g2p_text<R: InferenceRuntime>(
    rt: R,
    zh_on: bool,
    jp_on: bool,
    entries: Seq<(Seq<char>, i64)>,
    s: Seq<char>,
) -> Result<(Seq<i64>, Seq<Seq<u32>>), TtsError>
    decreases s.len(),
{
    if s.len() == 0 {
        Ok((Seq::empty(), Seq::empty()))
    } else {
        let kc = run_scan(s, 0, None);
        if 1 <= kc.0 <= s.len() {
            match run_result(rt, zh_on, jp_on, entries, kc.1, s.take(kc.0 as int)) {
                Err(e) => Err(e),
                Ok(head) => match g2p_text(rt, zh_on, jp_on, entries, s.skip(kc.0 as int)) {
                    Err(e) => Err(e),
                    Ok(tail) => Ok((head.0 + tail.0, head.1 + tail.1)),
                },
            }
        } else {
            Ok((Seq::empty(), Seq::empty()))
        }
    }
}

/// The grapheme-to-phoneme stage is deterministic: two successful
/// conversions of the same text under the same configuration yield
/// bit-identical phoneme-id and embedding sequences.
pub proof fn lemma_g2p_deterministic<R: InferenceRuntime>(
    rt: R,
    zh_on: bool,
    jp_on: bool,
    entries: Seq<(Seq<char>, i64)>,
    s: Seq<char>,
    a: (Seq<i64>, Seq<Seq<u32>>),
    b: (Seq<i64>, Seq<Seq<u32>>),
)
    requires
        g2p_text(rt, zh_on, jp_on, entries, s) == Ok::<_, TtsError>(a),
        g2p_text(rt, zh_on, jp_on, entries, s) == Ok::<_, TtsError>(b),
    ensures
        a == b,
{
}

/// The dictionary-based word segmenter applied ahead of the CJK
/// phonemizer, so that segmentation boundaries match the phonemizer's
/// expectations.
pub struct WordSegmenter {
    jieba: jieba_rs::Jieba,
}

#[verifier::external_type_specification]
#[verifier::external_body]
pub struct ExJieba(jieba_rs::Jieba);

/// The words `jieba_rs::Jieba::cut` (with its embedded default
/// dictionary) segments a text into, in order.
pub uninterp spec fn jieba_words(s: Seq<char>) -> Seq<Seq<char>>;

impl WordSegmenter {
    /// Relies on `jieba_rs::Jieba::new`: builds the segmenter over the
    /// crate's embedded default dictionary.
    #[verifier::external_body]
    pub fn new() -> WordSegmenter {
        WordSegmenter { jieba: jieba_rs::Jieba::new() }
    }

    /// Relies on `jieba_rs::Jieba::cut` (HMM enabled): deterministic
    /// dictionary/Viterbi segmentation, a function of the input text
    /// alone for the fixed default dictionary every `WordSegmenter`
    /// carries.
    #[verifier::external_body]
    pub(crate) fn cut(&self, text: &str) -> (r: Vec<String>)
        ensures
            str_views(r@) == jieba_words(text@),
    {
        self.jieba.cut(text, true).into_iter().map(|t| t.word.to_string()).collect()
    }
}

/// Scans the maximal same-script run of `chars` that starts at `pos`;
/// returns its end position and script.
fn scan_run(chars: &Vec<char>, pos: usize) -> (r: (usize, Option<Lang>))
    requires
        pos < chars@.len(),
    ensures
        ({
            let kc = run_scan(chars@.skip(pos as int), 0, None);
            r.0 == pos + kc.0 && r.1 == kc.1 && pos < r.0 <= chars@.len()
        }),
{
    let ghost suffix = chars@.skip(pos as int);
    let n = chars.len();
    let mut i: usize = pos;
    let mut cls: Option<Lang> = None;
    proof {
        lemma_run_scan_bounds(suffix, 0, None);
    }
    while i < n
        invariant
            pos <= i <= n,
            n == chars@.len(),
            suffix == chars@.skip(pos as int),
            0 < run_scan(suffix, 0, None).0 <= suffix.len(),
            run_scan(suffix, (i - pos) as nat, cls) == run_scan(suffix, 0, None),
        decreases n - i,
    {
        proof {
            assert(suffix[i - pos] == chars@[i as int]);
        }
        let c = class_of(chars[i]);
        match c {
            None => {
                i += 1;
            },
            Some(l) => {
                match cls {
                    None => {
                        cls = Some(l);
                        i += 1;
                    },
                    Some(a) => {
                        if a == l {
                            i += 1;
                        } else {
                            proof {
                                assert(run_scan(suffix, (i - pos) as nat, cls) == (
                                    (i - pos) as nat,
                                    cls,
                                ));
                            }
                            return (i, cls);
                        }
                    },
                }
            },
        }
    }
    proof {
        assert(run_scan(suffix, (n - pos) as nat, cls) == ((n - pos) as nat, cls));
    }
    (n, cls)
}
/// Prepends already-converted phoneme ids and embedding rows to the
/// outcome of converting the rest of a text.
pub open spec fn g2p_combine(
    tail: Result<(Seq<i64>, Seq<Seq<u32>>), TtsError>,
    ids: Seq<i64>,
    rows: Seq<Seq<u32>>,
) -> Result<(Seq<i64>, Seq<Seq<u32>>), TtsError> {
    match tail {
        Err(e) => Err(e),
        Ok(v) => Ok((ids + v.0, rows + v.1)),
    }
}

/// `g2p_combine` composes by concatenating the prefixes.
proof fn lemma_g2p_combine_assoc(
    tail: Result<(Seq<i64>, Seq<Seq<u32>>), TtsError>,
    ids1: Seq<i64>,
    rows1: Seq<Seq<u32>>,
    ids2: Seq<i64>,
    rows2: Seq<Seq<u32>>,
)
    ensures
        g2p_combine(g2p_combine(tail, ids2, rows2), ids1, rows1) == g2p_combine(
            tail,
            ids1 + ids2,
            rows1 + rows2,
        ),
{
    match tail {
        Err(e) => {
        },
        Ok(v) => {
            assert(ids1 + (ids2 + v.0) =~= (ids1 + ids2) + v.0);
            assert(rows1 + (rows2 + v.1) =~= (rows1 + rows2) + v.1);
        },
    }
}

/// Converts `text` into one flat phoneme-id sequence and one aligned
/// embedding sequence, routing each same-script run to its converter.
///
/// On success the result is exactly [`g2p_text`] of the input — the
/// grapheme-to-phoneme stage is deterministic — with one embedding row
/// per phoneme id, all rows of the runtime's uniform width.  An
/// undetected script or one whose converter is not configured yields
/// [`TtsError::UnsupportedLanguage`]; a phoneme outside the symbol table
/// yields [`TtsError::UnknownSymbol`]; only a runtime failure
/// ([`TtsError::RuntimeForward`] or [`TtsError::AssetLoad`]) can abort a
/// request whose [`g2p_text`] is defined.
pub fn get_phone_and_bert<R: InferenceRuntime>(g: &GPTSovits<R>, text: &str) -> (r: Result<
    (Vec<i64>, BertSeq),
    TtsError,
>)
    ensures
        text@.len() == 0 ==> (r matches Ok(pb) && pb.0@.len() == 0 && pb.1@.len() == 0),
        ({
            let spec_r = g2p_text(g.rt(), g.zh_on(), g.jp_on(), g.symbols_view(), text@);
            match r {
                Ok(pb) => spec_r == Ok::<_, TtsError>((pb.0@, pb.1@)) && pb.0@.len() == pb.1@.len()
                    && pb.1.wf(g.rt().bert_dim()),
                Err(e) => e != TtsError::EmptyInput && e != TtsError::SpeakerNotFound && (e
                    == TtsError::RuntimeForward || e == TtsError::AssetLoad || spec_r == Err::<
                    (Seq<i64>, Seq<Seq<u32>>),
                    _,
                >(e)),
            }
        }),
{
    let ghost rt = g.rt();
    let ghost zh_on = g.zh_on();
    let ghost jp_on = g.jp_on();
    let ghost entries = g.symbols_view();
    let ghost whole = g2p_text(rt, zh_on, jp_on, entries, text@);
    let chars = chars_of(text);
    let n = chars.len();
    let dim = g.runtime.embedding_dim();
    let mut ids: Vec<i64> = Vec::new();
    let mut bert = BertSeq { rows: Vec::new() };
    let mut pos: usize = 0;
    proof {
        assert(text@.skip(0) =~= text@);
        assert(ids@ =~= Seq::<i64>::empty());
        assert(bert@ =~= Seq::<Seq<u32>>::empty());
        assert(g2p_combine(whole, ids@, bert@) == whole) by {
            match whole {
                Err(e) => {},
                Ok(v) => {
                    assert(ids@ + v.0 =~= v.0);
                    assert(bert@ + v.1 =~= v.1);
                },
            }
        }
    }
    while pos < n
        invariant
            pos <= n,
            n == text@.len(),
            chars@ == text@,
            rt == g.rt(),
            zh_on == g.zh_on(),
            jp_on == g.jp_on(),
            entries == g.symbols_view(),
            whole == g2p_text(rt, zh_on, jp_on, entries, text@),
            dim as nat == rt.bert_dim(),
            ids@.len() == bert@.len(),
            bert.wf(rt.bert_dim()),
            whole == g2p_combine(
                g2p_text(rt, zh_on, jp_on, entries, text@.skip(pos as int)),
                ids@,
                bert@,
            ),
        decreases n - pos,
    {
        let ghost suffix = text@.skip(pos as int);
        let (run_end, cls) = scan_run(&chars, pos);
        let ghost k = (run_end - pos) as nat;
        proof {
            assert((k, cls) == run_scan(suffix, 0, None));
            lemma_run_scan_bounds(suffix, 0, None);
            assert(suffix.take(k as int) =~= text@.subrange(pos as int, run_end as int));
            assert(suffix.skip(k as int) =~= text@.skip(run_end as int));
        }
        let piece = text.substring_char(pos, run_end);
        let ghost head = run_result(rt, zh_on, jp_on, entries, cls, piece@);
        let ghost tail = g2p_text(rt, zh_on, jp_on, entries, text@.skip(run_end as int));
        proof {
            assert(piece@ == suffix.take(k as int));
            assert(g2p_text(rt, zh_on, jp_on, entries, suffix) == match head {
                Err(e) => Err::<(Seq<i64>, Seq<Seq<u32>>), TtsError>(e),
                Ok(h) => g2p_combine(tail, h.0, h.1),
            });
        }
        let (run_ids, run_rows) = match cls {
            None => {
                return Err(TtsError::UnsupportedLanguage);
            },
            Some(Lang::Zh) => {
                if !g.zh_enabled {
                    return Err(TtsError::UnsupportedLanguage);
                }
                let words = g.jieba.cut(piece);
                match g.runtime.convert_zh(&words) {
                    Err(e) => {
                        return Err(e);
                    },
                    Ok((phones, rows)) => {
                        match g.symbols.phones_to_ids(&phones) {
                            Err(e) => {
                                return Err(e);
                            },
                            Ok(run_ids) => {
                                proof {
                                    assert(head == Ok::<_, TtsError>((run_ids@, rows@)));
                                    assert(run_ids@.len() == rows@.len());
                                }
                                (run_ids, rows)
                            },
                        }
                    },
                }
            },
            Some(Lang::En) => {
                match g.runtime.convert_en(piece) {
                    Err(e) => {
                        return Err(e);
                    },
                    Ok(phones) => {
                        match g.symbols.phones_to_ids(&phones) {
                            Err(e) => {
                                return Err(e);
                            },
                            Ok(run_ids) => {
                                let rows = BertSeq::zeros(phones.len(), dim);
                                proof {
                                    assert(rows@ == zero_rows(
                                        rt.en_phones_spec(piece@).len(),
                                        rt.bert_dim(),
                                    ));
                                    assert(head == Ok::<_, TtsError>((run_ids@, rows@)));
                                    assert(run_ids@.len() == rows@.len());
                                }
                                (run_ids, rows)
                            },
                        }
                    },
                }
            },
            Some(Lang::Jp) => {
                if !g.enable_jp {
                    return Err(TtsError::UnsupportedLanguage);
                }
                match g.runtime.convert_jp(piece) {
                    Err(e) => {
                        return Err(e);
                    },
                    Ok(phones) => {
                        match g.symbols.phones_to_ids(&phones) {
                            Err(e) => {
                                return Err(e);
                            },
                            Ok(run_ids) => {
                                let rows = BertSeq::zeros(phones.len(), dim);
                                proof {
                                    assert(rows@ == zero_rows(
                                        rt.jp_phones_spec(piece@).len(),
                                        rt.bert_dim(),
                                    ));
                                    assert(head == Ok::<_, TtsError>((run_ids@, rows@)));
                                    assert(run_ids@.len() == rows@.len());
                                }
                                (run_ids, rows)
                            },
                        }
                    },
                }
            },
        };
        let ghost rids = run_ids@;
        let ghost rrows = run_rows@;
        let ghost prev_ids = ids@;
        let ghost prev_rows = bert@;
        let mut more = run_ids;
        ids.append(&mut more);
        bert.append_rows(run_rows);
        proof {
            assert(head == Ok::<_, TtsError>((rids, rrows)));
            assert(g2p_text(rt, zh_on, jp_on, entries, suffix) == g2p_combine(tail, rids, rrows));
            lemma_g2p_combine_assoc(tail, prev_ids, prev_rows, rids, rrows);
            assert(prev_ids + rids =~= ids@);
            assert(prev_rows + rrows =~= bert@);
            assert(whole == g2p_combine(tail, ids@, bert@));
            assert forall|x: int| 0 <= x < bert@.len() implies (#[trigger] bert@[x]).len()
                == rt.bert_dim() by {
                if x < prev_rows.len() {
                    assert(bert@[x] == prev_rows[x]);
                } else {
                    assert(bert@[x] == rrows[x - prev_rows.len()]);
                }
            }
        }
        pos = run_end;
    }
    proof {
        assert(text@.skip(n as int) =~= Seq::<char>::empty());
        assert(ids@ + Seq::<i64>::empty() =~= ids@);
        assert(bert@ + Seq::<Seq<u32>>::empty() =~= bert@);
        assert(whole == Ok::<_, TtsError>((ids@, bert@)));
    }
    Ok((ids, bert))
}

} // verus!
