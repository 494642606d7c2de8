//! The two-stage pipeline: a line extractor that recovers timestamp and
//! payload from every line of the `Render thread/INFO` channel, and a
//! classifier that turns payloads into chat messages.

use crate::scan::{
    chars_of, find_char_at, find_char_in, find_sub_at, find_sub_in, is_match_at, occurs_at,
    skip_spaces, trim_leading,
};
use std::rc::Rc;
use vstd::prelude::*;

verus! {

/// One log line of the watched channel, split into its bracketed
/// timestamp and the payload after the channel marker.
#[derive(Debug)]
pub struct InfoLine {
    pub time: String,
    pub content: String,
}

/// Who a chat message came from: an identified player, a third-person
/// emote, or the server itself.
#[derive(Debug)]
pub enum ChatMessageSource {
    Named(String),
    Emote,
    System,
}

/// One successfully classified chat event.
#[derive(Debug)]
pub struct ChatMessage {
    pub time: String,
    pub message: String,
    pub source: ChatMessageSource,
}

/// Name filter handed to consumers of the message sequence; the parsing
/// itself never consults it.
pub struct Settings {
    pub included_names: Rc<str>,
    pub excluded_names: Rc<str>,
}

/// Mathematical view of an `InfoLine`.
#[verifier::ext_equal]
pub struct InfoLineView {
    pub time: Seq<char>,
    pub content: Seq<char>,
}

/// Mathematical view of a `ChatMessageSource`.
#[verifier::ext_equal]
pub enum SourceView {
    Named(Seq<char>),
    Emote,
    System,
}

/// Mathematical view of a `ChatMessage`.
#[verifier::ext_equal]
pub struct ChatMessageView {
    pub time: Seq<char>,
    pub message: Seq<char>,
    pub source: SourceView,
}

impl View for InfoLine {
    type V = InfoLineView;

    open spec fn view(&self) -> InfoLineView {
        InfoLineView { time: self.time@, content: self.content@ }
    }
}

impl View for ChatMessageSource {
    type V = SourceView;

    open spec fn view(&self) -> SourceView {
        match self {
            ChatMessageSource::Named(n) => SourceView::Named(n@),
            ChatMessageSource::Emote => SourceView::Emote,
            ChatMessageSource::System => SourceView::System,
        }
    }
}

impl View for ChatMessage {
    type V = ChatMessageView;

    open spec fn view(&self) -> ChatMessageView {
        ChatMessageView { time: self.time@, message: self.message@, source: self.source@ }
    }
}

/// The marker that separates a line's timestamp from its payload.
pub open spec fn info_sep() -> Seq<char> {
    "] [Render thread/INFO]: "@
}

/// The prefix of a server-originated chat payload.
pub open spec fn system_token() -> Seq<char> {
    "[System] [CHAT] "@
}

/// The prefix of every player chat payload.
pub open spec fn chat_token() -> Seq<char> {
    "[CHAT] "@
}

/// The prefix that marks an emote inside a chat payload.
pub open spec fn emote_token() -> Seq<char> {
    "* "@
}

/// What the line extractor recovers from a single line: the line is
/// selected when it holds an opening bracket followed (after the
/// non-greedy timestamp capture) by the channel marker; the text between
/// the bracket and the first marker is the timestamp, everything after
/// the marker is the payload.
pub open spec fn line_info(line: Seq<char>) -> Option<InfoLineView> {
    match find_char_at(line, '[', 0) {
        None => None,
        Some(p) => match find_sub_at(line, info_sep(), p + 1) {
            None => None,
            Some(j) => Some(
                InfoLineView {
                    time: line.subrange(p + 1, j),
                    content: line.subrange(j + info_sep().len(), line.len() as int),
                },
            ),
        },
    }
}

/// The input text split at every line feed.
pub open spec fn lines_of(s: Seq<char>) -> Seq<Seq<char>>
    decreases s.len()
        via lines_of_decreases
{
    match find_char_at(s, '\n', 0) {
        None => seq![s],
        Some(e) => seq![s.subrange(0, e)] + lines_of(s.skip(e + 1)),
    }
}

#[via_fn]
proof fn lines_of_decreases(s: Seq<char>) {
    crate::scan::lemma_find_char_at(s, '\n', 0);
}

/// The values that `f` recovers from the elements of `s`, in order;
/// elements on which `f` fails contribute nothing.
pub open spec fn collect_some<T, U>(s: Seq<T>, f: spec_fn(T) -> Option<U>) -> Seq<U>
    decreases s.len(),
{
    if s.len() == 0 {
        Seq::empty()
    } else {
        match f(s[0]) {
            Some(u) => seq![u] + collect_some(s.drop_first(), f),
            None => collect_some(s.drop_first(), f),
        }
    }
}

/// The line extractor as a partial function, for use with `collect_some`.
pub open spec fn line_info_fn() -> spec_fn(Seq<char>) -> Option<InfoLineView> {
    |line: Seq<char>| line_info(line)
}

/// The classifier as a partial function, for use with `collect_some`.
pub open spec fn message_fn() -> spec_fn(InfoLineView) -> Option<ChatMessageView> {
    |l: InfoLineView| spec_message_of(l)
}

/// The ordered sequence of channel lines recovered from the log text.
pub open spec fn spec_info_lines(log: Seq<char>) -> Seq<InfoLineView> {
    collect_some(lines_of(log), line_info_fn())
}

/// The ordered sequence of chat messages recovered from the log text.
pub open spec fn spec_chat_messages(log: Seq<char>) -> Seq<ChatMessageView> {
    collect_some(spec_info_lines(log), message_fn())
}

/// Classification of a payload, by the ordered, mutually exclusive prefix
/// rules: a `[System] [CHAT] ` prefix makes a system message; otherwise a
/// `[CHAT] ` prefix makes an emote when `* ` follows, or a named message
/// when `<` follows and a matching `>` is found, with the sender between
/// the brackets and the body after `>`, its leading white space removed.
pub open spec fn spec_classify(c: Seq<char>) -> Option<(SourceView, Seq<char>)> {
    if system_token().is_prefix_of(c) {
        Some((SourceView::System, c.skip(system_token().len() as int)))
    } else if chat_token().is_prefix_of(c) {
        let cl = chat_token().len() as int;
        if emote_token().is_prefix_of(c.skip(cl)) {
            Some((SourceView::Emote, c.skip(cl + emote_token().len())))
        } else if c.len() > cl && c[cl] == '<' {
            match find_char_at(c, '>', cl + 1) {
                Some(k) => Some(
                    (SourceView::Named(c.subrange(cl + 1, k)), trim_leading(c.skip(k + 1))),
                ),
                None => None,
            }
        } else {
            None
        }
    } else {
        None
    }
}

/// The chat message that an extracted line yields, if its payload
/// classifies; the timestamp is passed through unchanged.
pub open spec fn spec_message_of(l: InfoLineView) -> Option<ChatMessageView> {
    match spec_classify(l.content) {
        Some(r) => Some(ChatMessageView { time: l.time, message: r.1, source: r.0 }),
        None => None,
    }
}

/// The views of a sequence of extracted lines.
pub open spec fn views_of_info_lines(v: Seq<InfoLine>) -> Seq<InfoLineView> {
    v.map_values(|l: InfoLine| l@)
}

/// The views of a sequence of chat messages.
pub open spec fn views_of_messages(v: Seq<ChatMessage>) -> Seq<ChatMessageView> {
    v.map_values(|m: ChatMessage| m@)
}

/// The view of an optional chat message.
pub open spec fn view_of_message(r: Option<ChatMessage>) -> Option<ChatMessageView> {
    match r {
        Some(m) => Some(m@),
        None => None,
    }
}

/// The channel marker as a character vector.
fn info_sep_chars() -> (v: Vec<char>)
    ensures
        v@ == info_sep(),
        v@.len() >= 1,
{
    proof {
        reveal_strlit("] [Render thread/INFO]: ");
    }
    chars_of("] [Render thread/INFO]: ")
}

/// Parses one line, `v[start..end]`, of the log text.
fn parse_line(v: &Vec<char>, s: &str, sep: &Vec<char>, start: usize, end: usize) -> (r: Option<
    InfoLine,
>)
    requires
        v@ == s@,
        sep@ == info_sep(),
        start <= end <= v@.len(),
    ensures
        match r {
            Some(l) => line_info(v@.subrange(start as int, end as int)) == Some(l@),
            None => line_info(v@.subrange(start as int, end as int)) is None,
        },
{
    let ghost line = v@.subrange(start as int, end as int);
    proof {
        reveal_strlit("] [Render thread/INFO]: ");
        crate::scan::lemma_find_char_at(line, '[', 0);
    }
    let popen = match find_char_in(v, '[', start, end) {
        Some(p) => p,
        None => {
            proof {
                assert(forall|j: int| 0 <= j < line.len() ==> line[j] == v@[start + j]);
                assert(find_char_at(line, '[', 0) is None);
            }
            return None;
        },
    };
    let ghost p = popen - start;
    proof {
        assert(line[p] == '[');
        assert(forall|j: int| 0 <= j < p ==> line[j] != '[');
        assert(find_char_at(line, '[', 0) == Some(p));
        crate::scan::lemma_find_sub_at(line, info_sep(), p + 1);
        assert(forall|x: int|
            0 <= x && x + info_sep().len() <= line.len() ==> #[trigger] line.subrange(
                x,
                x + info_sep().len(),
            ) =~= v@.subrange(start + x, start + x + info_sep().len()));
    }
    let j = match find_sub_in(v, sep, popen + 1, end) {
        Some(j) => j,
        None => {
            proof {
                assert(forall|x: int| p + 1 <= x ==> !occurs_at(line, info_sep(), x));
                assert(find_sub_at(line, info_sep(), p + 1) is None);
            }
            return None;
        },
    };
    proof {
        assert(occurs_at(line, info_sep(), j - start));
        assert(forall|x: int| p + 1 <= x < j - start ==> !occurs_at(line, info_sep(), x));
        assert(find_sub_at(line, info_sep(), p + 1) == Some(j - start));
    }
    let time = s.substring_char(popen + 1, j).to_owned();
    let content = s.substring_char(j + sep.len(), end).to_owned();
    proof {
        assert(time@ =~= line.subrange(p + 1, j - start));
        assert(content@ =~= line.subrange(j - start + info_sep().len(), line.len() as int));
    }
    Some(InfoLine { time, content })
}

/// Extracts every line of the watched channel from the raw log text, in
/// order, splitting each into timestamp and payload.
pub fn extract_info_lines(log: String) -> (res: Vec<InfoLine>)
    ensures
        views_of_info_lines(res@) == spec_info_lines(log@),
{
    let s: &str = log.as_str();
    let v = chars_of(s);
    let sep = info_sep_chars();
    let n = v.len();
    let mut res: Vec<InfoLine> = Vec::new();
    let mut start: usize = 0;
    let mut done: bool = false;
    proof {
        assert(log@.skip(0) =~= log@);
        assert(views_of_info_lines(res@) =~= Seq::<InfoLineView>::empty());
        assert(Seq::<InfoLineView>::empty() + collect_some(lines_of(log@), line_info_fn())
            =~= collect_some(lines_of(log@), line_info_fn()));
    }
    while !done
        invariant
            v@ == log@,
            v@ == s@,
            sep@ == info_sep(),
            n == v@.len(),
            start <= n,
            done ==> spec_info_lines(log@) == views_of_info_lines(res@),
            !done ==> spec_info_lines(log@) == views_of_info_lines(res@) + collect_some(
                lines_of(log@.skip(start as int)),
                line_info_fn(),
            ),
        decreases n - start + (if done { 0int } else { 1int }),
    {
        let ghost t = log@.skip(start as int);
        let ghost old_res = res@;
        proof {
            crate::scan::lemma_find_char_at(t, '\n', 0);
            assert(forall|j: int| 0 <= j < t.len() ==> t[j] == v@[start + j]);
        }
        let nl = find_char_in(&v, '\n', start, n);
        let end = match nl {
            Some(e) => e,
            None => n,
        };
        let ghost rest = match nl {
            Some(e) => lines_of(log@.skip(e + 1)),
            None => Seq::<Seq<char>>::empty(),
        };
        proof {
            match nl {
                Some(e) => {
                    assert(t[e - start] == '\n');
                    assert(forall|j: int| 0 <= j < e - start ==> t[j] != '\n');
                    assert(find_char_at(t, '\n', 0) == Some(e - start));
                    assert(t.subrange(0, e - start) =~= v@.subrange(start as int, e as int));
                    assert(t.skip(e - start + 1) =~= log@.skip(e + 1));
                    assert(lines_of(t) == seq![v@.subrange(start as int, e as int)] + rest);
                },
                None => {
                    assert(find_char_at(t, '\n', 0) is None);
                    assert(t =~= v@.subrange(start as int, n as int));
                    assert(lines_of(t) == seq![v@.subrange(start as int, n as int)]);
                },
            }
            assert((seq![v@.subrange(start as int, end as int)] + rest).drop_first() =~= rest);
        }
        match parse_line(&v, s, &sep, start, end) {
            Some(l) => {
                res.push(l);
                proof {
                    assert(views_of_info_lines(res@) =~= views_of_info_lines(old_res) + seq![l@]);
                    assert(collect_some(lines_of(t), line_info_fn()) == seq![l@] + collect_some(
                        rest,
                        line_info_fn(),
                    ));
                    assert(views_of_info_lines(old_res) + (seq![l@] + collect_some(
                        rest,
                        line_info_fn(),
                    )) =~= views_of_info_lines(res@) + collect_some(rest, line_info_fn()));
                }
            },
            None => {
                proof {
                    assert(collect_some(lines_of(t), line_info_fn()) == collect_some(
                        rest,
                        line_info_fn(),
                    ));
                }
            },
        }
        match nl {
            Some(e) => {
                start = e + 1;
            },
            None => {
                done = true;
                proof {
                    assert(collect_some(rest, line_info_fn()) =~= Seq::<InfoLineView>::empty());
                    assert(views_of_info_lines(res@) + Seq::<InfoLineView>::empty()
                        =~= views_of_info_lines(res@));
                }
            },
        }
    }
    res
}

/// Classifies one extracted line as a chat message, or rejects it.
pub fn info_line_to_chat_message(line: InfoLine) -> (res: Option<ChatMessage>)
    ensures
        view_of_message(res) == spec_message_of(line@),
{
    let time = line.time;
    let c: &str = line.content.as_str();
    let v = chars_of(c);
    let n = v.len();
    let sys = chars_of("[System] [CHAT] ");
    let chat = chars_of("[CHAT] ");
    let emote = chars_of("* ");

    if is_match_at(&v, &sys, 0, n) {
        let sl = sys.len();
        let message = c.substring_char(sl, n).to_owned();
        proof {
            assert(v@.subrange(0, system_token().len() as int) == system_token());
            assert(system_token().is_prefix_of(v@));
            assert(message@ =~= v@.skip(system_token().len() as int));
        }
        return Some(ChatMessage { time, message, source: ChatMessageSource::System });
    }
    proof {
        assert(!system_token().is_prefix_of(v@)) by {
            if system_token().is_prefix_of(v@) {
                assert(v@.subrange(0, system_token().len() as int) =~= system_token());
            }
        }
    }
    if !is_match_at(&v, &chat, 0, n) {
        proof {
            assert(!chat_token().is_prefix_of(v@)) by {
                if chat_token().is_prefix_of(v@) {
                    assert(v@.subrange(0, chat_token().len() as int) =~= chat_token());
                }
            }
        }
        return None;
    }
    let cl = chat.len();
    proof {
        assert(chat_token().is_prefix_of(v@));
    }
    if is_match_at(&v, &emote, cl, n) {
        let start_m = cl + emote.len();
        let message = c.substring_char(start_m, n).to_owned();
        proof {
            assert(v@.skip(cl as int).subrange(0, emote_token().len() as int) =~= v@.subrange(
                cl as int,
                cl + emote_token().len(),
            ));
            assert(emote_token().is_prefix_of(v@.skip(cl as int)));
            assert(message@ =~= v@.skip(cl + emote_token().len()));
        }
        return Some(ChatMessage { time, message, source: ChatMessageSource::Emote });
    }
    proof {
        assert(!emote_token().is_prefix_of(v@.skip(cl as int))) by {
            if emote_token().is_prefix_of(v@.skip(cl as int)) {
                assert(v@.subrange(cl as int, cl + emote_token().len()) =~= v@.skip(
                    cl as int,
                ).subrange(0, emote_token().len() as int));
            }
        }
    }
    if cl < n && v[cl] == '<' {
        proof {
            crate::scan::lemma_find_char_at(v@, '>', cl + 1);
        }
        match find_char_in(&v, '>', cl + 1, n) {
            Some(k) => {
                proof {
                    assert(find_char_at(v@, '>', cl + 1) == Some(k as int));
                }
                let name = c.substring_char(cl + 1, k).to_owned();
                let m_start = skip_spaces(&v, k + 1, n);
                let message = c.substring_char(m_start, n).to_owned();
                proof {
                    assert(name@ =~= v@.subrange(cl + 1, k as int));
                    crate::scan::lemma_trim_leading_skip(
                        v@.skip(k + 1),
                        m_start - (k + 1),
                    );
                    assert(v@.skip(k + 1).skip(m_start - (k + 1)) =~= v@.skip(m_start as int));
                    assert(message@ =~= trim_leading(v@.skip(k + 1)));
                }
                return Some(
                    ChatMessage { time, message, source: ChatMessageSource::Named(name) },
                );
            },
            None => {
                proof {
                    assert(find_char_at(v@, '>', cl + 1) is None);
                }
                return None;
            },
        }
    }
    None
}

/// Extracts the channel lines and classifies each independently; payloads
/// that are not chat contribute nothing, and order is preserved.
pub fn extract_chat_messages(log: String) -> (res: Vec<ChatMessage>)
    ensures
        views_of_messages(res@) == spec_chat_messages(log@),
{
    let ghost glog = log@;
    let mut info_lines = extract_info_lines(log);
    let mut res: Vec<ChatMessage> = Vec::new();
    while info_lines.len() > 0
        invariant
            spec_chat_messages(glog) == views_of_messages(res@) + collect_some(
                views_of_info_lines(info_lines@),
                message_fn(),
            ),
        decreases info_lines@.len(),
    {
        let ghost old_infos = info_lines@;
        let ghost old_res = res@;
        let line = info_lines.remove(0);
        let ghost lv = line@;
        proof {
            assert(old_infos.remove(0) =~= old_infos.drop_first());
            assert(views_of_info_lines(info_lines@) =~= views_of_info_lines(
                old_infos,
            ).drop_first());
            assert(views_of_info_lines(old_infos)[0] == lv);
        }
        match info_line_to_chat_message(line) {
            Some(msg) => {
                res.push(msg);
                proof {
                    assert(spec_message_of(lv) == Some(msg@));
                    assert(views_of_messages(res@) =~= views_of_messages(old_res) + seq![msg@]);
                    assert(views_of_messages(old_res) + (seq![msg@] + collect_some(
                        views_of_info_lines(info_lines@),
                        message_fn(),
                    )) =~= views_of_messages(res@) + collect_some(
                        views_of_info_lines(info_lines@),
                        message_fn(),
                    ));
                }
            },
            None => {
                proof {
                    assert(spec_message_of(lv) is None);
                }
            },
        }
    }
    proof {
        assert(views_of_info_lines(info_lines@) =~= Seq::<InfoLineView>::empty());
        assert(views_of_messages(res@) + collect_some(
            views_of_info_lines(info_lines@),
            message_fn(),
        ) =~= views_of_messages(res@));
    }
    res
}

/// Runs the line extractor over the whole log text.
pub fn parse_log(log: String) {
    let _info_lines = extract_info_lines(log);
}

} // verus!
