use vstd::prelude::*;

use crate::session::QueueItem;
use crate::text::{
    contains, contains_text, decimal, join_range, join_words, push_decimal, split_words, trim_end, trim_spaces, trim_start,
    views, words,
};
use crate::youtube::VideoInfo;

verus! {

/// Whether a word looks like a video link.
pub open spec fn is_link_word(w: Seq<char>) -> bool {
    contains_text(w, "youtube.com"@) || contains_text(w, "youtu.be"@)
}

/// Whether a free-text message mentions a video site at all.
pub open spec fn mentions_video(text: Seq<char>) -> bool {
    contains_text(text, "youtube"@) || contains_text(text, "youtu.be"@)
}

/// Whether a free-text message mentions a video site at all.
pub fn mentions_video_link(text: &str) -> (r: bool)
    ensures
        r == mentions_video(text@),
{
    contains(text, "youtube") || contains(text, "youtu.be")
}

/// The position of the first link word of `ws`, if any.
pub open spec fn first_link(ws: Seq<Seq<char>>) -> Option<int> {
    if exists|i: int| 0 <= i < ws.len() && is_link_word(#[trigger] ws[i]) {
        Some(choose|i: int| 0 <= i < ws.len() && is_link_word(#[trigger] ws[i])
            && forall|j: int| 0 <= j < i ==> !is_link_word(#[trigger] ws[j]))
    } else {
        None
    }
}

proof fn lemma_join_concat(a: Seq<Seq<char>>, b: Seq<Seq<char>>)
    requires
        a.len() > 0,
        b.len() > 0,
    ensures
        join_words(a + b) == join_words(a) + " "@ + join_words(b),
    decreases b.len(),
{
    if b.len() == 1 {
        assert((a + b).drop_last() =~= a);
        assert(join_words(b) == b[0]);
    } else {
        lemma_join_concat(a, b.drop_last());
        assert((a + b).drop_last() =~= a + b.drop_last());
        assert(join_words(a) + " "@ + join_words(b.drop_last()) + " "@ + b.last()
            =~= join_words(a) + " "@ + (join_words(b.drop_last()) + " "@ + b.last()));
    }
}

/// Splits the argument of an add command into the link, its first word,
/// and a note, the remaining words joined by spaces. `None` when the
/// argument holds no word.
pub fn parse_add_input(input: &str) -> (r: Option<(String, Option<String>)>)
    ensures
        r is None <==> words(input@).len() == 0,
        match r {
            Some((url, note)) => {
                let ws = words(input@);
                &&& url@ == ws[0]
                &&& note is Some <==> ws.len() > 1
                &&& note is Some ==> note->0@ == join_words(ws.subrange(1, ws.len() as int))
            },
            None => true,
        },
{
    let ws = split_words(input);
    if ws.len() == 0 {
        return None;
    }
    let url = ws[0].clone();
    let note = if ws.len() > 1 { Some(join_range(&ws, 1, ws.len())) } else { None };
    proof {
        assert(views(ws@)[0] == ws@[0]@);
    }
    Some((url, note))
}

/// Finds the first link word of a free-text message. The words before and
/// after it, joined by spaces, become the note. `None` when no word is a
/// link.
pub fn split_link_message(text: &str) -> (r: Option<(String, Option<String>)>)
    ensures
        r is None <==> first_link(words(text@)) is None,
        match r {
            Some((url, note)) => {
                let ws = words(text@);
                let p = first_link(ws)->0;
                &&& url@ == ws[p]
                &&& note is Some <==> ws.len() > 1
                &&& note is Some ==> note->0@ == join_words(ws.remove(p))
            },
            None => true,
        },
{
    let ws = split_words(text);
    let ghost wv = views(ws@);
    let mut p: usize = 0;
    let mut found = false;
    while p < ws.len() && !found
        invariant
            p <= ws@.len(),
            wv == views(ws@),
            wv == words(text@),
            found ==> p < ws@.len() && is_link_word(wv[p as int]),
            forall|j: int| 0 <= j < p ==> !is_link_word(#[trigger] wv[j]),
        decreases ws@.len() - p + if found { 0int } else { 1int },
    {
        let w = ws[p].as_str();
        proof {
            assert(wv[p as int] == w@);
        }
        if contains(w, "youtube.com") || contains(w, "youtu.be") {
            found = true;
        } else {
            p = p + 1;
        }
    }
    if !found {
        proof {
            assert(!exists|i: int| 0 <= i < wv.len() && is_link_word(#[trigger] wv[i]));
        }
        return None;
    }
    proof {
        let q = first_link(wv)->0;
        if q < p {
            assert(!is_link_word(wv[q]));
        } else if q > p {
            assert(!is_link_word(wv[p as int]));
        }
        assert(first_link(wv) == Some(p as int));
    }
    let url = ws[p].clone();
    let n = ws.len();
    let note = if n == 1 {
        None
    } else if p == 0 {
        let r = join_range(&ws, 1, n);
        proof {
            assert(wv.remove(0) =~= wv.subrange(1, n as int));
        }
        Some(r)
    } else if p == n - 1 {
        let r = join_range(&ws, 0, p);
        proof {
            assert(wv.remove(p as int) =~= wv.subrange(0, p as int));
        }
        Some(r)
    } else {
        let mut r = join_range(&ws, 0, p);
        r.append(" ");
        let after = join_range(&ws, p + 1, n);
        r.append(after.as_str());
        proof {
            assert(wv.remove(p as int) =~= wv.subrange(0, p as int) + wv.subrange(p + 1, n as int));
            lemma_join_concat(wv.subrange(0, p as int), wv.subrange(p + 1, n as int));
        }
        Some(r)
    };
    Some((url, note))
}

/// How a video is named in replies: its title, or its id.
pub open spec fn video_name(v: VideoInfo) -> Seq<char> {
    match v.title {
        Some(t) => t@,
        None => "Video ID: "@ + v.id@,
    }
}

/// How the member who added an item is named in replies.
pub open spec fn adder_name(it: QueueItem) -> Seq<char> {
    match it.username {
        Some(n) => n@,
        None => "User "@ + decimal(it.added_by as nat),
    }
}

/// The note of an item as appended to its line, if it has one.
pub open spec fn note_suffix(it: QueueItem) -> Seq<char> {
    match it.note {
        Some(n) => " - Note: "@ + n@,
        None => Seq::<char>::empty(),
    }
}

/// The numbered lines listing waiting items.
pub open spec fn queue_lines(items: Seq<QueueItem>) -> Seq<char>
    decreases items.len(),
{
    if items.len() == 0 {
        Seq::<char>::empty()
    } else {
        let it = items.last();
        queue_lines(items.drop_last()) + decimal(items.len()) + ". "@ + video_name(it.video_info)
            + " (added by "@ + adder_name(it) + ")"@ + note_suffix(it) + "  \n"@
    }
}

/// The numbered lines listing played items.
pub open spec fn history_lines(items: Seq<QueueItem>) -> Seq<char>
    decreases items.len(),
{
    if items.len() == 0 {
        Seq::<char>::empty()
    } else {
        let it = items.last();
        history_lines(items.drop_last()) + decimal(items.len()) + ". "@ + video_name(it.video_info)
            + " (added by "@ + adder_name(it) + ")\n"@
    }
}

/// The items that a list of references points to.
pub open spec fn derefs(items: Seq<&QueueItem>) -> Seq<QueueItem> {
    items.map_values(|x: &QueueItem| *x)
}

fn push_video_name(s: &mut String, v: &VideoInfo)
    ensures
        final(s)@ == old(s)@ + video_name(*v),
{
    match &v.title {
        Some(t) => s.append(t.as_str()),
        None => {
            s.append("Video ID: ");
            s.append(v.id.as_str());
        },
    }
}

fn push_adder_name(s: &mut String, it: &QueueItem)
    ensures
        final(s)@ == old(s)@ + adder_name(*it),
{
    match &it.username {
        Some(n) => s.append(n.as_str()),
        None => {
            s.append("User ");
            push_decimal(s, it.added_by);
        },
    }
}

/// The reply listing the waiting items.
#[verifier::rlimit(40)]
pub fn queue_text(items: &Vec<&QueueItem>) -> (r: String)
    ensures
        r@ == "Current queue:\n"@ + queue_lines(derefs(items@)),
{
    let mut r = "Current queue:\n".to_owned();
    let mut k: usize = 0;
    while k < items.len()
        invariant
            k <= items@.len(),
            r@ == "Current queue:\n"@ + queue_lines(derefs(items@).take(k as int)),
        decreases items@.len() - k,
    {
        let it: &QueueItem = items[k];
        let ghost part = derefs(items@).take(k as int + 1);
        proof {
            assert(part.drop_last() =~= derefs(items@).take(k as int));
            assert(part.last() == *it);
        }
        push_decimal(&mut r, (k + 1) as u64);
        r.append(". ");
        push_video_name(&mut r, &it.video_info);
        r.append(" (added by ");
        push_adder_name(&mut r, it);
        r.append(")");
        match &it.note {
            Some(n) => {
                r.append(" - Note: ");
                r.append(n.as_str());
            },
            None => {},
        }
        r.append("  \n");
        proof {
            assert(r@ =~= "Current queue:\n"@ + queue_lines(part));
        }
        k = k + 1;
    }
    proof {
        assert(derefs(items@).take(items@.len() as int) =~= derefs(items@));
    }
    r
}

/// The reply listing the played items.
#[verifier::rlimit(40)]
pub fn history_text(items: &Vec<&QueueItem>) -> (r: String)
    ensures
        r@ == "Previously played videos:\n"@ + history_lines(derefs(items@)),
{
    let mut r = "Previously played videos:\n".to_owned();
    let mut k: usize = 0;
    while k < items.len()
        invariant
            k <= items@.len(),
            r@ == "Previously played videos:\n"@ + history_lines(derefs(items@).take(k as int)),
        decreases items@.len() - k,
    {
        let it: &QueueItem = items[k];
        let ghost part = derefs(items@).take(k as int + 1);
        proof {
            assert(part.drop_last() =~= derefs(items@).take(k as int));
            assert(part.last() == *it);
        }
        push_decimal(&mut r, (k + 1) as u64);
        r.append(". ");
        push_video_name(&mut r, &it.video_info);
        r.append(" (added by ");
        push_adder_name(&mut r, it);
        r.append(")\n");
        proof {
            assert(r@ =~= "Previously played videos:\n"@ + history_lines(part));
        }
        k = k + 1;
    }
    proof {
        assert(derefs(items@).take(items@.len() as int) =~= derefs(items@));
    }
    r
}

/// The reply announcing the item that starts playing.
pub fn now_playing_text(item: &QueueItem) -> (r: String)
    ensures
        r@ == "Now playing: "@ + video_name(item.video_info) + " (added by "@ + adder_name(*item) + ")"@,
{
    let mut r = "Now playing: ".to_owned();
    push_video_name(&mut r, &item.video_info);
    r.append(" (added by ");
    push_adder_name(&mut r, item);
    r.append(")");
    r
}

/// The reply naming the video now playing and its link.
pub fn current_video_text(video: &VideoInfo) -> (r: String)
    ensures
        r@ == "Currently playing: "@ + video_name(*video) + "\nLink: "@ + video.url@,
{
    let mut r = "Currently playing: ".to_owned();
    push_video_name(&mut r, video);
    r.append("\nLink: ");
    r.append(video.url.as_str());
    r
}

/// The name a chat member is shown by: their handle, else their first and
/// last name joined by a space, without surrounding white space.
pub fn sender_name(username: Option<String>, first_name: &str, last_name: Option<String>) -> (r: Option<String>)
    ensures
        username is Some ==> r == username,
        r is Some,
        username is None ==> r->0@ == trim_end(trim_start(first_name@ + " "@ + match last_name {
            Some(l) => l@,
            None => Seq::<char>::empty(),
        })),
{
    match username {
        Some(u) => Some(u),
        None => {
            let mut full = first_name.to_owned();
            full.append(" ");
            match &last_name {
                Some(l) => full.append(l.as_str()),
                None => {},
            }
            Some(trim_spaces(full.as_str()))
        },
    }
}

} // verus!
