//! Helpers for the texts that the bot writes.

use vstd::prelude::*;
use crate::errors::Error;
use crate::messages::{format_large_msg, split_lines, string_views};
use crate::text::{chars_of, string_of};

verus! {

/// What stands for a character in the address of a link: a percent code for
/// `<`, `>` and `"`, the character itself otherwise.
pub open spec fn url_escaped_char(c: char) -> Seq<char> {
    if c == '<' {
        "%3C"@
    } else if c == '>' {
        "%3E"@
    } else if c == '"' {
        "%22"@
    } else {
        seq![c]
    }
}

/// A text escaped for the address of a link, character by character.
pub open spec fn escape_url(s: Seq<char>) -> Seq<char>
    decreases s.len(),
{
    if s.len() == 0 {
        seq![]
    } else {
        escape_url(s.drop_last()) + url_escaped_char(s.last())
    }
}

/// A text that is written out escaped for the address of a link.
#[derive(Debug, Clone, Copy)]
pub struct EscapeUrl<'a>(pub &'a str);

impl<'a> EscapeUrl<'a> {
    /// The text escaped for the address of a link.
    pub fn to_string(&self) -> (r: String)
        ensures
            r@ == escape_url(self.0@),
    {
        let chars = chars_of(self.0);
        let mut out = String::new();
        let mut i: usize = 0;
        while i < chars.len()
            invariant
                i <= chars.len(),
                out@ == escape_url(chars@.take(i as int)),
            decreases chars.len() - i,
        {
            let c = chars[i];
            proof {
                assert(chars@.take(i + 1).drop_last() =~= chars@.take(i as int));
                assert(chars@.take(i + 1).last() == c);
            }
            if c == '<' {
                out.append("%3C");
            } else if c == '>' {
                out.append("%3E");
            } else if c == '"' {
                out.append("%22");
            } else {
                out.push(c);
                assert(out@ =~= escape_url(chars@.take(i as int)) + seq![c]);
            }
            i = i + 1;
        }
        proof {
            assert(chars@.take(chars.len() as int) =~= chars@);
        }
        out
    }
}

/// A text cut to `max` characters: one that is longer keeps its first
/// `max - 3` characters, and three dots follow.
pub open spec fn truncated(s: Seq<char>, max: nat) -> Seq<char> {
    if s.len() > max {
        s.take(max - 3) + "..."@
    } else {
        s
    }
}

/// Cuts a text to `max` characters.
pub fn truncate_message(s: &str, max: usize) -> (r: String)
    requires
        max >= 3 || s@.len() <= max,
    ensures
        r@ == truncated(s@, max as nat),
{
    let chars = chars_of(s);
    if chars.len() > max {
        let mut out = string_of(&chars, 0, max - 3);
        out.append("...");
        proof {
            assert(chars@.subrange(0, max - 3) =~= chars@.take(max - 3));
        }
        out
    } else {
        s.to_owned()
    }
}

/// Formats each item as a line and joins the lines behind the head into
/// messages that the messaging service takes.
pub fn format_and_split_msgs<T, F: Fn(&T) -> String>(
    head: String,
    data: &[T],
    line_format_fn: F,
) -> (msgs: Vec<String>)
    requires
        forall|i: int| 0 <= i < data.len() ==> call_requires(line_format_fn, (&data[i],)),
    ensures
        exists|lines: Seq<String>|
            {
                &&& lines.len() == data.len()
                &&& forall|i: int|
                    0 <= i < data.len() ==> call_ensures(
                        line_format_fn,
                        (&data[i],),
                        #[trigger] lines[i],
                    )
                &&& string_views(msgs@) == split_lines(head@, string_views(lines))
            },
{
    format_large_msg(head, data, line_format_fn)
}

/// The text of an error for a reader of Chinese: a failure of the network,
/// of the encoding or of the XML reader is named as such, with what was
/// said in parentheses, the XML reader's words cut to 500 characters. Any
/// other error keeps its own text.
pub open spec fn spec_chinese_error_msg(e: Error) -> Seq<char> {
    match e {
        Error::Curl(message) => "网络错误 ("@ + message@ + ")"@,
        Error::Utf8(message) => "编码错误 ("@ + message@ + ")"@,
        Error::Xml(message) => "解析错误 ("@ + truncated(message@, 500) + ")"@,
        other => other.spec_message(),
    }
}

/// Writes the text of an error for a reader of Chinese.
pub fn to_chinese_error_msg(e: Error) -> (r: String)
    ensures
        r@ == spec_chinese_error_msg(e),
{
    match e {
        Error::Curl(message) => {
            let mut text = "网络错误 (".to_owned();
            text.append(message.as_str());
            text.append(")");
            text
        },
        Error::Utf8(message) => {
            let mut text = "编码错误 (".to_owned();
            text.append(message.as_str());
            text.append(")");
            text
        },
        Error::Xml(message) => {
            let mut text = "解析错误 (".to_owned();
            text.append(truncate_message(message.as_str(), 500).as_str());
            text.append(")");
            text
        },
        other => other.message(),
    }
}

} // verus!
