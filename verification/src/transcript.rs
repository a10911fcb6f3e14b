//! The agent transcript reader: the generation agent emits one JSON object
//! per line; only assistant messages' output-text items contribute to the
//! result, concatenated in document order, and a transcript that parses to
//! nothing falls back to the raw output.

use vstd::prelude::*;
use vstd::string::StrSliceExecFns;
use vstd::string::StringExecFns;

use crate::text::{lines_spec, split_lines, str_chars, string_of_chars, push_str_chars};

verus! {

/// One content item of a transcript message, reduced to plain values.
pub struct ContentItem {
    pub kind: Option<String>,
    pub text: Option<String>,
}

/// One transcript line that parsed as a JSON object, reduced to plain
/// values: the role, and the type and text of each content item.
pub struct TranscriptLine {
    pub role: Option<String>,
    pub items: Vec<ContentItem>,
}

/// Mathematical shape of a content item.
pub struct ItemModel {
    pub kind: Option<Seq<char>>,
    pub text: Option<Seq<char>>,
}

/// Mathematical shape of a parsed transcript line.
pub struct LineModel {
    pub role: Option<Seq<char>>,
    pub items: Seq<ItemModel>,
}

impl DeepView for ContentItem {
    type V = ItemModel;

    open spec fn deep_view(&self) -> ItemModel {
        ItemModel { kind: self.kind.deep_view(), text: self.text.deep_view() }
    }
}

impl DeepView for TranscriptLine {
    type V = LineModel;

    open spec fn deep_view(&self) -> LineModel {
        LineModel { role: self.role.deep_view(), items: self.items.deep_view() }
    }
}

/// The shape a transcript line parses to, or nothing when the line is not
/// a JSON object.
pub uninterp spec fn parsed_line(s: Seq<char>) -> Option<LineModel>;

/// Relies on `serde_json::from_str::<serde_json::Value>` and the `Value`
/// accessors `get`, `as_str` and `as_array`: whether a line is a JSON
/// object, and which role string, content-item type strings and texts it
/// carries, are a function of the line's text alone.
#[verifier::external_body]
fn parse_transcript_line(line: &str) -> (r: Option<TranscriptLine>)
    ensures
        r.deep_view() == parsed_line(line@),
{
    let v: serde_json::Value = serde_json::from_str(line).ok()?;
    let role = v.get("role").and_then(|r| r.as_str()).map(|s| s.to_string());
    let items = match v.get("content").and_then(|c| c.as_array()) {
        Some(arr) => arr
            .iter()
            .map(|it| ContentItem {
                kind: it.get("type").and_then(|t| t.as_str()).map(|s| s.to_string()),
                text: it.get("text").and_then(|t| t.as_str()).map(|s| s.to_string()),
            })
            .collect(),
        None => Vec::new(),
    };
    Some(TranscriptLine { role, items })
}

/// The texts of the output-text items among `items`, in order.
pub open spec fn items_fragments(items: Seq<ItemModel>) -> Seq<Seq<char>>
    decreases items.len(),
{
    if items.len() == 0 {
        Seq::empty()
    } else {
        let rest = items_fragments(items.skip(1));
        match items[0].text {
            Some(t) => if items[0].kind == Some("output_text"@) {
                seq![t] + rest
            } else {
                rest
            },
            None => rest,
        }
    }
}

/// The fragments one parsed line contributes: for an assistant message,
/// the texts of its output-text items; nothing otherwise.
pub open spec fn line_fragments(m: Option<LineModel>) -> Seq<Seq<char>> {
    match m {
        Some(lm) => if lm.role == Some("assistant"@) {
            items_fragments(lm.items)
        } else {
            Seq::empty()
        },
        None => Seq::empty(),
    }
}

/// All fragments the transcript's lines contribute, in document order.
pub open spec fn transcript_fragments(lines: Seq<Seq<char>>) -> Seq<Seq<char>>
    decreases lines.len(),
{
    if lines.len() == 0 {
        Seq::empty()
    } else {
        line_fragments(parsed_line(lines[0])) + transcript_fragments(lines.skip(1))
    }
}

/// All fragments joined into one text.
pub open spec fn concat_all(frs: Seq<Seq<char>>) -> Seq<char>
    decreases frs.len(),
{
    if frs.len() == 0 {
        Seq::empty()
    } else {
        frs[0] + concat_all(frs.skip(1))
    }
}

proof fn lemma_transcript_fragments_push(lines: Seq<Seq<char>>, l: Seq<char>)
    ensures
        transcript_fragments(lines.push(l)) == transcript_fragments(lines) + line_fragments(
            parsed_line(l),
        ),
    decreases lines.len(),
{
    if lines.len() == 0 {
        assert(lines.push(l)[0] == l);
        assert(lines.push(l).skip(1) =~= Seq::<Seq<char>>::empty());
        assert(transcript_fragments(Seq::<Seq<char>>::empty()) =~= Seq::<Seq<char>>::empty());
        assert(transcript_fragments(lines.push(l)) == line_fragments(parsed_line(l))
            + Seq::<Seq<char>>::empty());
        assert(line_fragments(parsed_line(l)) + Seq::<Seq<char>>::empty() =~= Seq::<
            Seq<char>,
        >::empty() + line_fragments(parsed_line(l)));
    } else {
        lemma_transcript_fragments_push(lines.skip(1), l);
        assert(lines.push(l).skip(1) =~= lines.skip(1).push(l));
        assert(lines.push(l)[0] == lines[0]);
        assert((line_fragments(parsed_line(lines[0])) + transcript_fragments(lines.skip(1)))
            + line_fragments(parsed_line(l)) =~= line_fragments(parsed_line(lines[0])) + (
        transcript_fragments(lines.skip(1)) + line_fragments(parsed_line(l))));
    }
}

proof fn lemma_concat_all_append(a: Seq<Seq<char>>, b: Seq<Seq<char>>)
    ensures
        concat_all(a + b) == concat_all(a) + concat_all(b),
    decreases a.len(),
{
    if a.len() == 0 {
        assert(a + b =~= b);
        assert(concat_all(a) + concat_all(b) =~= concat_all(b));
    } else {
        lemma_concat_all_append(a.skip(1), b);
        assert((a + b).skip(1) =~= a.skip(1) + b);
        assert((a + b)[0] == a[0]);
        assert(a[0] + (concat_all(a.skip(1)) + concat_all(b)) =~= (a[0] + concat_all(a.skip(1)))
            + concat_all(b));
    }
}

proof fn lemma_items_fragments_push(items: Seq<ItemModel>, it: ItemModel)
    ensures
        items_fragments(items.push(it)) == items_fragments(items) + (match it.text {
            Some(t) => if it.kind == Some("output_text"@) {
                seq![t]
            } else {
                Seq::<Seq<char>>::empty()
            },
            None => Seq::<Seq<char>>::empty(),
        }),
    decreases items.len(),
{
    let tail: Seq<Seq<char>> = match it.text {
        Some(t) => if it.kind == Some("output_text"@) {
            seq![t]
        } else {
            Seq::empty()
        },
        None => Seq::empty(),
    };
    if items.len() == 0 {
        assert(items.push(it)[0] == it);
        assert(items.push(it).skip(1) =~= Seq::<ItemModel>::empty());
        assert(items_fragments(Seq::<ItemModel>::empty()) =~= Seq::<Seq<char>>::empty());
        match it.text {
            Some(t) => {
                if it.kind == Some("output_text"@) {
                    assert(items_fragments(items.push(it)) == seq![t]
                        + Seq::<Seq<char>>::empty());
                    assert(seq![t] + Seq::<Seq<char>>::empty() =~= Seq::<Seq<char>>::empty()
                        + seq![t]);
                } else {
                    assert(Seq::<Seq<char>>::empty() =~= Seq::<Seq<char>>::empty() + tail);
                }
            },
            None => {
                assert(Seq::<Seq<char>>::empty() =~= Seq::<Seq<char>>::empty() + tail);
            },
        }
    } else {
        lemma_items_fragments_push(items.skip(1), it);
        assert(items.push(it).skip(1) =~= items.skip(1).push(it));
        assert(items.push(it)[0] == items[0]);
        match items[0].text {
            Some(t0) => {
                if items[0].kind == Some("output_text"@) {
                    assert(seq![t0] + (items_fragments(items.skip(1)) + tail) =~= (seq![t0]
                        + items_fragments(items.skip(1))) + tail);
                }
            },
            None => {},
        }
    }
}

/// What extraction yields on raw agent output: the concatenation of all
/// assistant output-text fragments when there is at least one, and nothing
/// otherwise.
pub open spec fn extract_spec(raw: Seq<char>) -> Option<Seq<char>> {
    let frs = transcript_fragments(lines_spec(raw));
    if frs.len() > 0 {
        Some(concat_all(frs))
    } else {
        None
    }
}

/// The outcome of reading a transcript: text assembled from the structured
/// transcript, or the raw output kept as a degraded fallback.
pub enum AgentText {
    Structured(String),
    RawFallback(String),
}

/// Reads an agent transcript: concatenates the assistant's output-text
/// fragments in document order, falling back to the raw output when no
/// fragment is found.
pub fn extract_assistant_text(raw: &str) -> (r: AgentText)
    ensures
        match extract_spec(raw@) {
            Some(t) => r matches AgentText::Structured(s) && s@ == t,
            None => r matches AgentText::RawFallback(s) && s@ == raw@,
        },
{
    let v = str_chars(raw);
    let ls = split_lines(&v);
    let ghost lsd = ls.deep_view();
    proof {
        assert(lsd.len() == ls@.len());
        assert(forall|j: int| 0 <= j < ls@.len() ==> lsd[j] =~= #[trigger] ls@[j]@);
        assert(lsd.take(0) =~= Seq::<Seq<char>>::empty());
    }
    let assistant = String::from_str("assistant");
    let output_text = String::from_str("output_text");
    let mut acc: Vec<char> = Vec::new();
    let mut any = false;
    let n = ls.len();
    let mut i: usize = 0;
    while i < n
        invariant
            n == ls@.len(),
            lsd == ls.deep_view(),
            lsd.len() == n,
            forall|j: int| 0 <= j < ls@.len() ==> lsd[j] == #[trigger] ls@[j]@,
            assistant@ == "assistant"@,
            output_text@ == "output_text"@,
            i <= n,
            acc@ == concat_all(transcript_fragments(lsd.take(i as int))),
            any == (transcript_fragments(lsd.take(i as int)).len() > 0),
        decreases n - i,
    {
        let ghost pre = transcript_fragments(lsd.take(i as int));
        let line = string_of_chars(&ls[i]);
        let parsed = parse_transcript_line(line.as_str());
        let ghost lfr = line_fragments(parsed_line(lsd[i as int]));
        proof {
            assert(lsd.take(i + 1) =~= lsd.take(i as int).push(lsd[i as int]));
            lemma_transcript_fragments_push(lsd.take(i as int), lsd[i as int]);
            lemma_concat_all_append(pre, lfr);
        }
        match parsed {
            Some(t) => {
                let is_assistant = match &t.role {
                    Some(r) => *r == assistant,
                    None => false,
                };
                proof {
                    assert(parsed_line(lsd[i as int]) == Some(t.deep_view()));
                }
                if is_assistant {
                    let ghost itd = t.items.deep_view();
                    proof {
                        assert(t.deep_view().items == itd);
                        assert(t.deep_view().role == Some("assistant"@));
                        assert(lfr == items_fragments(itd));
                        assert(itd.take(0) =~= Seq::<ItemModel>::empty());
                    }
                    let m = t.items.len();
                    let mut j: usize = 0;
                    while j < m
                        invariant
                            m == t.items@.len(),
                            itd == t.items.deep_view(),
                            itd.len() == m,
                            output_text@ == "output_text"@,
                            j <= m,
                            acc@ == concat_all(pre) + concat_all(
                                items_fragments(itd.take(j as int)),
                            ),
                            any == (pre.len() + items_fragments(itd.take(j as int)).len() > 0),
                        decreases m - j,
                    {
                        let ghost frj = items_fragments(itd.take(j as int));
                        proof {
                            assert(itd.take(j + 1) =~= itd.take(j as int).push(itd[j as int]));
                            lemma_items_fragments_push(itd.take(j as int), itd[j as int]);
                            assert(itd[j as int] == t.items@[j as int].deep_view());
                        }
                        let item = &t.items[j];
                        let is_output = match &item.kind {
                            Some(k) => *k == output_text,
                            None => false,
                        };
                        if is_output {
                            match &item.text {
                                Some(tx) => {
                                    push_str_chars(&mut acc, tx.as_str());
                                    any = true;
                                    proof {
                                        let ghost tail = seq![tx@];
                                        assert(items_fragments(itd.take(j + 1)) == frj + tail);
                                        lemma_concat_all_append(frj, tail);
                                        assert(concat_all(tail) == tx@ + concat_all(Seq::<
                                            Seq<char>,
                                        >::empty())) by {
                                            assert(tail.skip(1) =~= Seq::<Seq<char>>::empty());
                                        }
                                        assert(concat_all(tail) =~= tx@);
                                        assert(acc@ =~= concat_all(pre) + concat_all(
                                            items_fragments(itd.take(j + 1)),
                                        ));
                                    }
                                },
                                None => {
                                    proof {
                                        assert(items_fragments(itd.take(j + 1)) =~= frj);
                                    }
                                },
                            }
                        } else {
                            proof {
                                assert(items_fragments(itd.take(j + 1)) =~= frj);
                            }
                        }
                        j = j + 1;
                    }
                    proof {
                        assert(itd.take(m as int) =~= itd);
                        assert(concat_all(transcript_fragments(lsd.take(i + 1))) =~= acc@);
                        assert(transcript_fragments(lsd.take(i + 1)).len() == pre.len()
                            + lfr.len());
                    }
                } else {
                    proof {
                        assert(t.deep_view().role != Some("assistant"@)) by {
                            match t.role {
                                Some(r) => {
                                    assert(r@ != "assistant"@);
                                },
                                None => {},
                            }
                        }
                        assert(lfr =~= Seq::<Seq<char>>::empty());
                        assert(concat_all(transcript_fragments(lsd.take(i + 1))) =~= acc@);
                        assert(transcript_fragments(lsd.take(i + 1)).len() == pre.len());
                    }
                }
            },
            None => {
                proof {
                    assert(parsed_line(lsd[i as int]) is None);
                    assert(lfr =~= Seq::<Seq<char>>::empty());
                    assert(concat_all(transcript_fragments(lsd.take(i + 1))) =~= acc@);
                    assert(transcript_fragments(lsd.take(i + 1)).len() == pre.len());
                }
            },
        }
        i = i + 1;
    }
    proof {
        assert(lsd.take(n as int) =~= lsd);
        assert(lines_spec(raw@) == lsd);
    }
    if any {
        AgentText::Structured(string_of_chars(&acc))
    } else {
        AgentText::RawFallback(raw.to_owned())
    }
}

} // verus!
