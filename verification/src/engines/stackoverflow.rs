//! Stack Overflow (StackExchange API, no authentication; limited quota).
//! The application decodes the JSON `items` into [`QuestionRecord`]s.
use vstd::prelude::*;

use crate::engines::common::{clip, clip_spec, query_encoded, query_url_n};
use crate::engines::entries::{
    entries_view, opt_entry_view, rank_entries, ranked_entries, Entry, EntryView,
};
use crate::engines::EngineError;
use crate::models::{meta_view, opt_view, results_view, Category, EngineMeta, ResultView, SearchResult};
use crate::text::{
    chars_to_string, decimal, join, owned, push_joined, push_signed_decimal, push_str,
    signed_decimal, str_chars, strings_view,
};

verus! {

/// The fields of one question of a search response (each `None` when
/// missing or not of the expected JSON type; a tag that is not a string is
/// `None`).
#[derive(Debug, Clone)]
pub struct QuestionRecord {
    pub title: Option<String>,
    pub link: Option<String>,
    pub view_count: Option<i64>,
    pub is_answered: Option<bool>,
    pub tags: Vec<Option<String>>,
}

/// Plain view of a [`QuestionRecord`].
pub ghost struct QuestionView {
    pub title: Option<Seq<char>>,
    pub link: Option<Seq<char>>,
    pub view_count: Option<i64>,
    pub is_answered: Option<bool>,
    pub tags: Seq<Option<Seq<char>>>,
}

impl View for QuestionRecord {
    type V = QuestionView;

    open spec fn view(&self) -> QuestionView {
        QuestionView {
            title: opt_view(self.title),
            link: opt_view(self.link),
            view_count: self.view_count,
            is_answered: self.is_answered,
            tags: self.tags@.map_values(|t: Option<String>| opt_view(t)),
        }
    }
}

pub open spec fn questions_view(v: Seq<QuestionRecord>) -> Seq<QuestionView> {
    v.map_values(|q: QuestionRecord| q@)
}

/// The tags that are strings, in order.
pub open spec fn string_tags(tags: Seq<Option<Seq<char>>>) -> Seq<Seq<char>>
    decreases tags.len(),
{
    if tags.len() == 0 {
        seq![]
    } else {
        let prev = string_tags(tags.drop_last());
        match tags.last() {
            Some(t) => prev.push(t),
            None => prev,
        }
    }
}

/// At most the first four.
pub open spec fn first_four(tags: Seq<Seq<char>>) -> Seq<Seq<char>> {
    if tags.len() > 4 {
        tags.take(4)
    } else {
        tags
    }
}

/// "👁 {views} · ✔ 已解答" (or "未解答"), followed by " · 标签: a / b" for at
/// most four tags.
pub open spec fn question_snippet(q: QuestionView) -> Seq<char> {
    let views: i64 = match q.view_count {
        Some(n) => n,
        None => 0,
    };
    let answered = match q.is_answered {
        Some(b) => b,
        None => false,
    };
    let tags = first_four(string_tags(q.tags));
    "👁 "@ + signed_decimal(views as int) + " · "@ + (if answered {
        "✔ 已解答"@
    } else {
        "未解答"@
    }) + (if tags.len() == 0 {
        Seq::empty()
    } else {
        " · 标签: "@ + join(tags, " / "@)
    })
}

fn tags_of(q: &QuestionRecord) -> (r: Vec<String>)
    ensures
        strings_view(r@) == first_four(string_tags(q@.tags)),
{
    let ghost tv = q@.tags;
    let mut out: Vec<String> = Vec::new();
    let mut i: usize = 0;
    while i < q.tags.len()
        invariant
            i <= q.tags@.len(),
            tv == q@.tags,
            tv.len() == q.tags@.len(),
            strings_view(out@) == string_tags(tv.take(i as int)),
        decreases q.tags.len() - i,
    {
        assert(tv.take(i + 1).drop_last() =~= tv.take(i as int));
        assert(tv.take(i + 1).last() == opt_view(q.tags@[i as int]));
        match &q.tags[i] {
            Some(t) => {
                out.push(t.clone());
                assert(strings_view(out@) =~= string_tags(tv.take(i + 1)));
            },
            None => {},
        }
        i += 1;
    }
    assert(tv.take(q.tags@.len() as int) =~= tv);
    if out.len() > 4 {
        out.truncate(4);
        assert(strings_view(out@) =~= first_four(string_tags(tv)));
    }
    out
}

/// Executable [`question_snippet`].
pub fn question_snippet_of(q: &QuestionRecord) -> (s: String)
    ensures
        s@ == question_snippet(q@),
{
    proof {
        reveal_strlit("");
        assert(""@ =~= Seq::<char>::empty());
    }
    let views: i64 = match q.view_count {
        Some(n) => n,
        None => 0,
    };
    let answered = match q.is_answered {
        Some(b) => b,
        None => false,
    };
    let tags = tags_of(q);
    let mut v = str_chars("👁 ");
    push_signed_decimal(&mut v, views);
    push_str(&mut v, " · ");
    if answered {
        push_str(&mut v, "✔ 已解答");
    } else {
        push_str(&mut v, "未解答");
    }
    if tags.len() > 0 {
        push_str(&mut v, " · 标签: ");
        push_joined(&mut v, &tags, " / ");
    }
    chars_to_string(v.as_slice())
}

pub struct StackOverflow;

impl StackOverflow {
    /// Engine metadata.
    pub fn meta(&self) -> (r: EngineMeta)
        ensures
            meta_view(r) == ("stackoverflow"@, "Stack Overflow"@, Category::Code, false),
    {
        EngineMeta::new("stackoverflow", "Stack Overflow", Category::Code, false)
    }

    pub open spec fn url_spec(query: Seq<char>, max: nat) -> Seq<char> {
        "https://api.stackexchange.com/2.3/search/advanced?order=desc&sort=relevance&q="@
            + query_encoded(query) + "&site=stackoverflow&pagesize="@ + decimal(
            if max < 50 {
                max
            } else {
                50
            },
        )
    }

    /// The API request URL, asking for at most 50 questions.
    pub fn search_url(&self, query: &str, max: usize) -> (r: String)
        ensures
            r@ == Self::url_spec(query@, max as nat),
    {
        let n: usize = if max < 50 {
            max
        } else {
            50
        };
        proof {
            reveal_strlit("");
            assert(""@ =~= Seq::<char>::empty());
        }
        query_url_n(
            "https://api.stackexchange.com/2.3/search/advanced?order=desc&sort=relevance&q=",
            query,
            "&site=stackoverflow&pagesize=",
            n as u64,
            "",
        )
    }

    /// The entry a question makes (none without a title or a link).
    pub open spec fn entry_spec(q: QuestionView) -> Option<EntryView> {
        match (q.title, q.link) {
            (Some(t), Some(l)) => Some((t, l, clip_spec(question_snippet(q), 300), None)),
            _ => None,
        }
    }

    pub open spec fn entries_of(qs: Seq<QuestionView>) -> Seq<Option<EntryView>> {
        qs.map_values(|q: QuestionView| Self::entry_spec(q))
    }

    fn entry_of(q: &QuestionRecord) -> (e: Option<Entry>)
        ensures
            opt_entry_view(e) == Self::entry_spec(q@),
    {
        match (&q.title, &q.link) {
            (Some(t), Some(l)) => {
                let snippet = clip(question_snippet_of(q).as_str(), 300);
                Some(Entry { title: t.clone(), url: l.clone(), snippet, published: None })
            },
            _ => None,
        }
    }

    /// Each result is made from one question of the response, ranked by
    /// its index `k` in the list: its title, its link, and its views,
    /// answered state and tags as snippet.
    pub proof fn law_results_from_records(items: Seq<QuestionView>, max: nat)

        ensures
            crate::engines::entries::ranked_entries(Self::entries_of(items), max, "stackoverflow"@, true).len() <= max,
            forall|i: int|
                #![trigger crate::engines::entries::ranked_entries(Self::entries_of(items), max, "stackoverflow"@, true)[i]]
                0 <= i < crate::engines::entries::ranked_entries(Self::entries_of(items), max, "stackoverflow"@, true).len() ==> {
                    let rs = crate::engines::entries::ranked_entries(Self::entries_of(items), max, "stackoverflow"@, true);
                    &&& rs[i].source == "stackoverflow"@
                    &&& exists|k: int| #![trigger items[k]] 0 <= k < items.len() && (match (items[k].title, items[k].link) {
                    (Some(t), Some(l)) => rs[i].title == crate::models::clean_title_spec(t) && rs[i].url == l && rs[i].rank == k
                        && rs[i].snippet == crate::engines::common::clip_spec(question_snippet(items[k]), 300),
                    _ => false,
                })
                },
    {
        let es = Self::entries_of(items);
        crate::engines::entries::lemma_ranked_entries_from(es, max, "stackoverflow"@, true);
        let rs = crate::engines::entries::ranked_entries(es, max, "stackoverflow"@, true);
        assert forall|i: int| #![trigger rs[i]] 0 <= i < rs.len() implies rs[i].source == "stackoverflow"@
            && exists|k: int| #![trigger items[k]] 0 <= k < items.len() && (match (items[k].title, items[k].link) {
                    (Some(t), Some(l)) => rs[i].title == crate::models::clean_title_spec(t) && rs[i].url == l && rs[i].rank == k
                        && rs[i].snippet == crate::engines::common::clip_spec(question_snippet(items[k]), 300),
                    _ => false,
                }) by {
            let k = choose|k: int|
                #![trigger es[k]]
                0 <= k < es.len() && (es[k] matches Some(e) && rs[i] == crate::engines::entries::entry_result(
                    e,
                    "stackoverflow"@,
                    if true {
                        k as nat
                    } else {
                        i as nat
                    },
                ));
            assert(0 <= k < items.len());
        }
    }

    /// No usable record is lost: when `max` is at least the number of
    /// records, every question with a title and a link yields a result made from it.
    pub proof fn law_records_give_results(items: Seq<QuestionView>, max: nat)
        requires
            max >= items.len(),
        ensures
            forall|k: int|
                #![trigger items[k]]
                0 <= k < items.len() ==> match (items[k].title, items[k].link) {
                    (Some(t), Some(l)) => exists|i: int| #![trigger crate::engines::entries::ranked_entries(Self::entries_of(items), max, "stackoverflow"@, true)[i]] 0 <= i < crate::engines::entries::ranked_entries(Self::entries_of(items), max, "stackoverflow"@, true).len() && crate::engines::entries::ranked_entries(Self::entries_of(items), max, "stackoverflow"@, true)[i].title == crate::models::clean_title_spec(t)
                        && crate::engines::entries::ranked_entries(Self::entries_of(items), max, "stackoverflow"@, true)[i].url == l && crate::engines::entries::ranked_entries(Self::entries_of(items), max, "stackoverflow"@, true)[i].rank == k && crate::engines::entries::ranked_entries(Self::entries_of(items), max, "stackoverflow"@, true)[i].snippet == crate::engines::common::clip_spec(question_snippet(items[k]), 300),
                    _ => true,
                },
    {
        let es = Self::entries_of(items);
        crate::engines::entries::lemma_entries_to_results(es, max, "stackoverflow"@, true);
        let rs = crate::engines::entries::ranked_entries(Self::entries_of(items), max, "stackoverflow"@, true);
        assert forall|k: int| #![trigger items[k]] 0 <= k < items.len() implies match (items[k].title, items[k].link) {
                    (Some(t), Some(l)) => exists|i: int| #![trigger rs[i]] 0 <= i < rs.len() && rs[i].title == crate::models::clean_title_spec(t)
                        && rs[i].url == l && rs[i].rank == k && rs[i].snippet == crate::engines::common::clip_spec(question_snippet(items[k]), 300),
                    _ => true,
                } by {
            assert(es[k] == es[k]);
        }
    }

    /// The results of the `items` of a response, ranked by their index in
    /// the list, at most `max`.
    pub fn results(&self, items: &Vec<QuestionRecord>, max: usize) -> (r: Vec<SearchResult>)
        ensures
            results_view(r@) == ranked_entries(
                Self::entries_of(questions_view(items@)),
                max as nat,
                "stackoverflow"@,
                true,
            ),
    {
        let ghost qv = questions_view(items@);
        let mut es: Vec<Option<Entry>> = Vec::new();
        let mut i: usize = 0;
        while i < items.len()
            invariant
                i <= items@.len(),
                qv == questions_view(items@),
                es@.len() == i,
                entries_view(es@) == Self::entries_of(qv.take(i as int)),
            decreases items.len() - i,
        {
            let e = Self::entry_of(&items[i]);
            let ghost prev = es@;
            es.push(e);
            assert forall|k: int| 0 <= k < i + 1 implies #[trigger] entries_view(es@)[k]
                == Self::entries_of(qv.take(i + 1))[k] by {
                if k < i {
                    assert(es@[k] == prev[k]);
                    assert(entries_view(prev)[k] == Self::entries_of(qv.take(i as int))[k]);
                }
            }
            assert(entries_view(es@) =~= Self::entries_of(qv.take(i + 1)));
            i += 1;
        }
        assert(qv.take(items@.len() as int) =~= qv);
        rank_entries(es, "stackoverflow", max, true)
    }

    /// The results, or this engine's error when there are none.
    pub fn finish(&self, out: Vec<SearchResult>) -> (r: Result<Vec<SearchResult>, EngineError>)
        ensures
            out@.len() > 0 ==> r == Ok::<Vec<SearchResult>, EngineError>(out),
            out@.len() == 0 ==> (r matches Err(EngineError::Parse(m)) && m@
                == "Stack Overflow 无结果或配额用尽"@),
    {
        if out.len() == 0 {
            return Err(EngineError::Parse(owned("Stack Overflow 无结果或配额用尽")));
        }
        Ok(out)
    }
}

} // verus!
