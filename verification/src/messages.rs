//! Message texts: escaping for HTML mode, and the splitting of long
//! messages.

use vstd::prelude::*;
use vstd::utf8::encode_utf8;
use crate::text::chars_of;

verus! {

/// The longest message that the messaging service takes, in bytes of UTF-8.
pub const TELEGRAM_MAX_MSG_LEN: usize = 4096;

/// The length of a text in bytes of UTF-8.
pub open spec fn utf8_len(s: Seq<char>) -> nat {
    encode_utf8(s).len()
}

/// The length of two texts joined is the sum of their lengths.
pub proof fn lemma_utf8_len_concat(a: Seq<char>, b: Seq<char>)
    ensures
        utf8_len(a + b) == utf8_len(a) + utf8_len(b),
    decreases a.len(),
{
    if a.len() == 0 {
        assert(a + b =~= b);
    } else {
        assert((a + b).drop_first() =~= a.drop_first() + b);
        assert((a + b)[0] == a[0]);
        lemma_utf8_len_concat(a.drop_first(), b);
    }
}

/// A line feed is one byte long.
pub proof fn lemma_utf8_len_newline()
    ensures
        utf8_len(seq!['\n']) == 1,
{
    let s = seq!['\n'];
    assert(s.drop_first() =~= Seq::<char>::empty());
    assert(encode_utf8(s) =~= vstd::utf8::encode_scalar('\n' as u32) + encode_utf8(
        s.drop_first(),
    ));
    assert(vstd::utf8::has_width_1_encoding('\n' as u32));
}

/// The texts of a list of strings.
pub open spec fn string_views(strings: Seq<String>) -> Seq<Seq<char>> {
    strings.map_values(|s: String| s@)
}

/// What stands for a character in HTML text: an entity for `<`, `>`, `&`
/// and `"`, the character itself otherwise.
pub open spec fn escaped_char(c: char) -> Seq<char> {
    if c == '<' {
        "&lt;"@
    } else if c == '>' {
        "&gt;"@
    } else if c == '&' {
        "&amp;"@
    } else if c == '"' {
        "&quot;"@
    } else {
        seq![c]
    }
}

/// A text escaped for HTML, character by character.
pub open spec fn escape_html(s: Seq<char>) -> Seq<char>
    decreases s.len(),
{
    if s.len() == 0 {
        seq![]
    } else {
        escape_html(s.drop_last()) + escaped_char(s.last())
    }
}

/// A text that is written out escaped for HTML.
#[derive(Debug, Clone, Copy)]
pub struct Escape<'a>(pub &'a str);

impl<'a> Escape<'a> {
    /// The text escaped for HTML.
    pub fn to_string(&self) -> (r: String)
        ensures
            r@ == escape_html(self.0@),
    {
        let chars = chars_of(self.0);
        let mut out = String::new();
        let mut i: usize = 0;
        while i < chars.len()
            invariant
                i <= chars.len(),
                out@ == escape_html(chars@.take(i as int)),
            decreases chars.len() - i,
        {
            let c = chars[i];
            proof {
                assert(chars@.take(i + 1).drop_last() =~= chars@.take(i as int));
                assert(chars@.take(i + 1).last() == c);
            }
            if c == '<' {
                out.append("&lt;");
            } else if c == '>' {
                out.append("&gt;");
            } else if c == '&' {
                out.append("&amp;");
            } else if c == '"' {
                out.append("&quot;");
            } else {
                out.push(c);
                assert(out@ =~= escape_html(chars@.take(i as int)) + seq![c]);
            }
            i = i + 1;
        }
        proof {
            assert(chars@.take(chars.len() as int) =~= chars@);
        }
        out
    }
}

/// Whether a line still fits behind a message: the two and the line feed
/// between them are no longer than the longest message.
pub open spec fn fits(message: Seq<char>, line: Seq<char>) -> bool {
    utf8_len(message) + 1 + utf8_len(line) <= TELEGRAM_MAX_MSG_LEN
}

/// The messages that a head and lines make: each line is joined to the last
/// message by a line feed where it fits, and starts a new message where it
/// does not.
pub open spec fn split_lines(head: Seq<char>, lines: Seq<Seq<char>>) -> Seq<Seq<char>>
    decreases lines.len(),
{
    if lines.len() == 0 {
        seq![head]
    } else {
        let before = split_lines(head, lines.drop_last());
        if fits(before.last(), lines.last()) {
            before.drop_last().push(before.last() + seq!['\n'] + lines.last())
        } else {
            before.push(lines.last())
        }
    }
}

/// There is always at least one message.
pub proof fn lemma_split_lines_nonempty(head: Seq<char>, lines: Seq<Seq<char>>)
    ensures
        split_lines(head, lines).len() >= 1,
    decreases lines.len(),
{
    if lines.len() > 0 {
        lemma_split_lines_nonempty(head, lines.drop_last());
    }
}

/// Where the head and every line are no longer than the longest message,
/// so is every message.
pub proof fn lemma_messages_fit(head: Seq<char>, lines: Seq<Seq<char>>, i: int)
    requires
        utf8_len(head) <= TELEGRAM_MAX_MSG_LEN,
        forall|j: int| 0 <= j < lines.len() ==> utf8_len(#[trigger] lines[j]) <= TELEGRAM_MAX_MSG_LEN,
        0 <= i < split_lines(head, lines).len(),
    ensures
        utf8_len(split_lines(head, lines)[i]) <= TELEGRAM_MAX_MSG_LEN,
    decreases lines.len(),
{
    if lines.len() > 0 {
        let shorter = lines.drop_last();
        let before = split_lines(head, shorter);
        lemma_split_lines_nonempty(head, shorter);
        assert forall|j: int| 0 <= j < shorter.len() implies utf8_len(#[trigger] shorter[j])
            <= TELEGRAM_MAX_MSG_LEN by {
            assert(shorter[j] == lines[j]);
        }
        if i < before.len() - 1 {
            lemma_messages_fit(head, shorter, i);
        } else if fits(before.last(), lines.last()) {
            lemma_utf8_len_concat(before.last(), seq!['\n']);
            lemma_utf8_len_concat(before.last() + seq!['\n'], lines.last());
            lemma_utf8_len_newline();
        } else if i == before.len() - 1 {
            lemma_messages_fit(head, shorter, i);
        }
    }
}

/// Joins lines behind a head into messages, starting a new one whenever the
/// next line would make the message too long.
pub fn join_lines(head: String, lines: &Vec<String>) -> (msgs: Vec<String>)
    ensures
        string_views(msgs@) == split_lines(head@, string_views(lines@)),
{
    let ghost views = string_views(lines@);
    let mut msgs: Vec<String> = Vec::new();
    let mut current = head;
    let mut i: usize = 0;
    while i < lines.len()
        invariant
            i <= lines.len(),
            views == string_views(lines@),
            string_views(msgs@).push(current@) == split_lines(head@, views.take(i as int)),
        decreases lines.len() - i,
    {
        let line = &lines[i];
        let ghost done = string_views(msgs@);
        proof {
            assert(views.take(i + 1).drop_last() =~= views.take(i as int));
            assert(views.take(i + 1).last() == line@);
            assert(done.push(current@).last() == current@);
            assert(done.push(current@).drop_last() =~= done);
        }
        let ghost filled = current@;
        let needed: u128 = current.as_str().as_bytes().len() as u128 + 1
            + line.as_str().as_bytes().len() as u128;
        if needed <= 4096 {
            current.push('\n');
            current.append(line.as_str());
            proof {
                assert(fits(filled, line@));
                assert(current@ =~= filled + seq!['\n'] + line@);
            }
        } else {
            msgs.push(current);
            current = line.clone();
            proof {
                assert(!fits(filled, line@));
                assert(string_views(msgs@) =~= done.push(filled));
            }
        }
        i = i + 1;
    }
    proof {
        assert(views.take(lines.len() as int) =~= views);
    }
    let ghost done = string_views(msgs@);
    msgs.push(current);
    proof {
        assert(string_views(msgs@) =~= done.push(current@));
    }
    msgs
}

/// Formats each item as a line and joins the lines behind the head into
/// messages that the messaging service takes.
pub fn format_large_msg<T, F: Fn(&T) -> String>(head: String, data: &[T], line_format_fn: F) -> (msgs:
    Vec<String>)
    requires
        forall|i: int| 0 <= i < data.len() ==> call_requires(line_format_fn, (&data[i],)),
    ensures
        exists|lines: Seq<String>|
            {
                &&& lines.len() == data.len()
                &&& forall|i: int|
                    0 <= i < data.len() ==> call_ensures(
                        line_format_fn,
                        (&data[i],),
                        #[trigger] lines[i],
                    )
                &&& string_views(msgs@) == split_lines(head@, string_views(lines))
            },
{
    let mut lines: Vec<String> = Vec::new();
    let mut i: usize = 0;
    while i < data.len()
        invariant
            i <= data.len(),
            lines.len() == i,
            forall|j: int| 0 <= j < data.len() ==> call_requires(line_format_fn, (&data[j],)),
            forall|j: int|
                0 <= j < i ==> call_ensures(line_format_fn, (&data[j],), #[trigger] lines[j]),
        decreases data.len() - i,
    {
        let line = line_format_fn(&data[i]);
        lines.push(line);
        i = i + 1;
    }
    join_lines(head, &lines)
}

} // verus!
