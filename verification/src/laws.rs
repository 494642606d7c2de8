//! The pipeline's guarantees, stated and proved: order preservation,
//! total exclusion of non-matching lines, mutual exclusivity of the
//! message sources, timestamp passthrough, and the white-space policy.

use crate::parser::{
    chat_token, collect_some, emote_token, line_info, line_info_fn, lines_of, message_fn,
    spec_chat_messages, spec_classify, spec_info_lines, spec_message_of, system_token,
    ChatMessageView, InfoLineView, SourceView,
};
use crate::scan::{find_char_at, is_space_char, trim_leading};
use vstd::prelude::*;

verus! {

/// `idx` embeds the output of `collect_some(s, f)` back into `s`: it
/// names, for each produced element, the source element it came from,
/// and it is strictly increasing, so relative order is preserved.
pub open spec fn order_embedding<T, U>(
    idx: Seq<int>,
    s: Seq<T>,
    f: spec_fn(T) -> Option<U>,
) -> bool {
    let out = collect_some(s, f);
    &&& idx.len() == out.len()
    &&& forall|k: int|
        0 <= k < idx.len() ==> 0 <= #[trigger] idx[k] < s.len() && f(s[idx[k]]) == Some(out[k])
    &&& forall|k1: int, k2: int|
        #![trigger idx[k1], idx[k2]]
        0 <= k1 < k2 < idx.len() ==> idx[k1] < idx[k2]
}

/// Whatever `f` is, `collect_some` preserves the source order: there is
/// always an order embedding of its output.
pub proof fn lemma_collect_some_order<T, U>(s: Seq<T>, f: spec_fn(T) -> Option<U>)
    ensures
        exists|idx: Seq<int>| order_embedding(idx, s, f),
    decreases s.len(),
{
    if s.len() == 0 {
        let idx = Seq::<int>::empty();
        assert(order_embedding(idx, s, f));
    } else {
        lemma_collect_some_order(s.drop_first(), f);
        let idx0 = choose|idx: Seq<int>| order_embedding(idx, s.drop_first(), f);
        let shifted = idx0.map_values(|i: int| i + 1);
        let out = collect_some(s, f);
        let out0 = collect_some(s.drop_first(), f);
        match f(s[0]) {
            Some(u) => {
                let idx = seq![0int] + shifted;
                assert(out == seq![u] + out0);
                assert forall|k: int|
                    0 <= k < idx.len() implies 0 <= #[trigger] idx[k] < s.len() && f(s[idx[k]])
                    == Some(out[k]) by {
                    if k == 0 {
                        assert(idx[0] == 0);
                        assert(out[0] == u);
                    } else {
                        assert(idx[k] == idx0[k - 1] + 1);
                        assert(out[k] == out0[k - 1]);
                        assert(s[idx0[k - 1] + 1] == s.drop_first()[idx0[k - 1]]);
                    }
                }
                assert forall|k1: int, k2: int|
                    #![trigger idx[k1], idx[k2]]
                    0 <= k1 < k2 < idx.len() implies idx[k1] < idx[k2] by {
                    if k1 == 0 {
                        assert(idx[k2] == idx0[k2 - 1] + 1);
                        assert(0 <= idx0[k2 - 1]);
                    } else {
                        assert(idx0[k1 - 1] < idx0[k2 - 1]);
                    }
                }
                assert(order_embedding(idx, s, f));
            },
            None => {
                let idx = shifted;
                assert(out == out0);
                assert forall|k: int|
                    0 <= k < idx.len() implies 0 <= #[trigger] idx[k] < s.len() && f(s[idx[k]])
                    == Some(out[k]) by {
                    assert(idx[k] == idx0[k] + 1);
                    assert(s[idx0[k] + 1] == s.drop_first()[idx0[k]]);
                }
                assert forall|k1: int, k2: int|
                    #![trigger idx[k1], idx[k2]]
                    0 <= k1 < k2 < idx.len() implies idx[k1] < idx[k2] by {
                    assert(idx0[k1] < idx0[k2]);
                }
                assert(order_embedding(idx, s, f));
            },
        }
    }
}

/// Order preservation at the extraction stage: every extracted line comes
/// from one source line, and the extracted sequence keeps the order in
/// which those lines stand in the log text.
pub proof fn lemma_info_lines_order(log: Seq<char>)
    ensures
        exists|idx: Seq<int>| order_embedding(idx, lines_of(log), line_info_fn()),
{
    lemma_collect_some_order(lines_of(log), line_info_fn());
}

/// Order preservation at the classification stage: every chat message
/// comes from one extracted line, in the extracted order.
pub proof fn lemma_chat_messages_order(log: Seq<char>)
    ensures
        exists|idx: Seq<int>| order_embedding(idx, spec_info_lines(log), message_fn()),
{
    lemma_collect_some_order(spec_info_lines(log), message_fn());
}

/// The two stages fused into one pass over the raw lines, for use with
/// `collect_some`.
pub open spec fn line_message_fn() -> spec_fn(Seq<char>) -> Option<ChatMessageView> {
    |l: Seq<char>|
        match line_info(l) {
            Some(i) => spec_message_of(i),
            None => None,
        }
}

/// Collecting through `f` and then through `g` is one pass through their
/// composition `h`.
pub proof fn lemma_collect_some_fuse<T, U, V>(
    s: Seq<T>,
    f: spec_fn(T) -> Option<U>,
    g: spec_fn(U) -> Option<V>,
    h: spec_fn(T) -> Option<V>,
)
    requires
        forall|x: T| #[trigger] h(x) == (match f(x) {
            Some(u) => g(u),
            None => None::<V>,
        }),
    ensures
        collect_some(collect_some(s, f), g) == collect_some(s, h),
    decreases s.len(),
{
    if s.len() > 0 {
        lemma_collect_some_fuse(s.drop_first(), f, g, h);
        if let Some(u) = f(s[0]) {
            assert((seq![u] + collect_some(s.drop_first(), f)).drop_first() =~= collect_some(
                s.drop_first(),
                f,
            ));
        }
    }
}

/// The two stages may be fused: extracting and then classifying equals
/// classifying each raw line as it is extracted, so the intermediate
/// sequence need never be materialized.
pub proof fn lemma_stages_fuse(log: Seq<char>)
    ensures
        spec_chat_messages(log) == collect_some(lines_of(log), line_message_fn()),
{
    assert(forall|l: Seq<char>| #[trigger] line_message_fn()(l) == (match line_info_fn()(l) {
        Some(i) => message_fn()(i),
        None => None::<ChatMessageView>,
    }));
    lemma_collect_some_fuse(lines_of(log), line_info_fn(), message_fn(), line_message_fn());
}

/// Order preservation end to end: every chat message comes from one line
/// of the source text, and messages stand in the order of those lines.
pub proof fn lemma_chat_messages_source_order(log: Seq<char>)
    ensures
        spec_chat_messages(log) == collect_some(lines_of(log), line_message_fn()),
        exists|idx: Seq<int>| order_embedding(idx, lines_of(log), line_message_fn()),
{
    lemma_stages_fuse(log);
    lemma_collect_some_order(lines_of(log), line_message_fn());
}

/// Inserting an element on which `f` fails leaves the output of
/// `collect_some` unchanged: a rejected element contributes nothing and
/// does not shift or merge the other entries.
pub proof fn lemma_collect_some_drops_none<T, U>(
    s: Seq<T>,
    f: spec_fn(T) -> Option<U>,
    i: int,
    x: T,
)
    requires
        0 <= i <= s.len(),
        f(x) is None,
    ensures
        collect_some(s.insert(i, x), f) == collect_some(s, f),
    decreases i,
{
    let t = s.insert(i, x);
    if i == 0 {
        assert(t[0] == x);
        assert(t.drop_first() =~= s);
    } else {
        assert(t[0] == s[0]);
        assert(t.drop_first() =~= s.drop_first().insert(i - 1, x));
        lemma_collect_some_drops_none(s.drop_first(), f, i - 1, x);
    }
}

/// Total exclusion at the extraction stage: a line that does not match
/// the channel pattern contributes no entry, wherever it stands.
pub proof fn lemma_unmatched_line_adds_nothing(ls: Seq<Seq<char>>, i: int, l: Seq<char>)
    requires
        0 <= i <= ls.len(),
        line_info(l) is None,
    ensures
        collect_some(ls.insert(i, l), line_info_fn()) == collect_some(ls, line_info_fn()),
{
    assert(line_info_fn()(l) is None);
    lemma_collect_some_drops_none(ls, line_info_fn(), i, l);
}

/// Total exclusion at the classification stage: an extracted line whose
/// payload is not chat contributes no message, wherever it stands.
pub proof fn lemma_unclassified_line_adds_nothing(infos: Seq<InfoLineView>, i: int, l: InfoLineView)
    requires
        0 <= i <= infos.len(),
        spec_message_of(l) is None,
    ensures
        collect_some(infos.insert(i, l), message_fn()) == collect_some(infos, message_fn()),
{
    assert(message_fn()(l) is None);
    lemma_collect_some_drops_none(infos, message_fn(), i, l);
}

/// The shape of a server-originated payload.
pub open spec fn is_system_shape(c: Seq<char>) -> bool {
    system_token().is_prefix_of(c)
}

/// The shape of an emote payload.
pub open spec fn is_emote_shape(c: Seq<char>) -> bool {
    chat_token().is_prefix_of(c) && emote_token().is_prefix_of(c.skip(chat_token().len() as int))
}

/// The shape of a named-sender payload.
pub open spec fn is_named_shape(c: Seq<char>) -> bool {
    &&& chat_token().is_prefix_of(c)
    &&& c.len() > chat_token().len()
    &&& c[chat_token().len() as int] == '<'
    &&& find_char_at(c, '>', chat_token().len() as int + 1) is Some
}

/// Mutual exclusivity: no payload matches more than one of the three
/// shapes.
pub proof fn lemma_shapes_mutually_exclusive(c: Seq<char>)
    ensures
        !(is_system_shape(c) && is_emote_shape(c)),
        !(is_system_shape(c) && is_named_shape(c)),
        !(is_emote_shape(c) && is_named_shape(c)),
{
    reveal_strlit("[System] [CHAT] ");
    reveal_strlit("[CHAT] ");
    reveal_strlit("* ");
    if is_system_shape(c) && chat_token().is_prefix_of(c) {
        assert(system_token()[1] == c.subrange(0, system_token().len() as int)[1]);
        assert(chat_token()[1] == c.subrange(0, chat_token().len() as int)[1]);
        assert(false);
    }
    if is_emote_shape(c) && is_named_shape(c) {
        assert(emote_token()[0] == c.skip(chat_token().len() as int).subrange(
            0,
            emote_token().len() as int,
        )[0]);
        assert(false);
    }
}

/// Exactly one source per message: classification succeeds precisely on
/// the three shapes, and the shape determines the source variant.
pub proof fn lemma_classification_by_shape(c: Seq<char>)
    ensures
        is_system_shape(c) <==> (spec_classify(c) matches Some(r) && r.0 is System),
        is_emote_shape(c) <==> (spec_classify(c) matches Some(r) && r.0 is Emote),
        is_named_shape(c) <==> (spec_classify(c) matches Some(r) && r.0 is Named),
        spec_classify(c) is Some <==> (is_system_shape(c) || is_emote_shape(c) || is_named_shape(
            c,
        )),
{
    lemma_shapes_mutually_exclusive(c);
}

/// Timestamp passthrough: a produced message carries the captured
/// timestamp of its source line, unmodified.
pub proof fn lemma_time_passthrough(l: InfoLineView)
    ensures
        spec_message_of(l) matches Some(m) ==> m.time == l.time,
{
}

/// White-space policy: the body of a named message is the text after the
/// closing bracket with exactly its leading white space removed; from the
/// first non-white-space character on — trailing and interior white space
/// included — it is kept verbatim.
pub proof fn lemma_named_whitespace_policy(c: Seq<char>, k: int)
    requires
        is_named_shape(c),
        find_char_at(c, '>', chat_token().len() as int + 1) == Some(k),
    ensures
        exists|w: int|
            #![trigger c.skip(k + 1 + w)]
            {
                &&& 0 <= w && k + 1 + w <= c.len()
                &&& (forall|j: int| k + 1 <= j < k + 1 + w ==> is_space_char(c[j]))
                &&& (k + 1 + w < c.len() ==> !is_space_char(c[k + 1 + w]))
                &&& (spec_classify(c) matches Some(r) && r.1 == c.skip(k + 1 + w))
            },
{
    lemma_shapes_mutually_exclusive(c);
    crate::scan::lemma_find_char_at(c, '>', chat_token().len() as int + 1);
    let t = c.skip(k + 1);
    crate::scan::lemma_trim_leading_shape(t);
    let w = choose|w: int|
        0 <= w <= t.len() && (forall|j: int| 0 <= j < w ==> is_space_char(t[j])) && (w < t.len()
            ==> !is_space_char(t[w])) && trim_leading(t) == t.skip(w);
    assert(t.skip(w) =~= c.skip(k + 1 + w));
    assert(forall|j: int| k + 1 <= j < k + 1 + w ==> is_space_char(c[j])) by {
        assert(forall|j: int| k + 1 <= j < k + 1 + w ==> c[j] == t[j - (k + 1)]);
    }
    assert({
        &&& 0 <= w && k + 1 + w <= c.len()
        &&& (forall|j: int| k + 1 <= j < k + 1 + w ==> is_space_char(c[j]))
        &&& (k + 1 + w < c.len() ==> !is_space_char(c[k + 1 + w]))
        &&& (spec_classify(c) matches Some(r) && r.1 == c.skip(k + 1 + w))
    });
}

} // verus!
