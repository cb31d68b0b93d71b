//! The lines of the upstream event stream, and the data that they carry.

use crate::text::{
    law_prefix_and_rest, same_text, strip_prefix, to_chars, trim, trimmed, views, without_prefix,
};
use vstd::prelude::*;
use vstd::string::*;
use vstd::utf8::*;

verus! {

/// The text that a piece of the stream stands for; what is not UTF-8 in it comes
/// out as replacement characters.
pub uninterp spec fn lossy_text(bytes: Seq<u8>) -> Seq<char>;

/// `String::from_utf8_lossy` of std: the text is named [`lossy_text`], and of valid
/// UTF-8 it is the text that the bytes encode.
#[verifier::external_body]
fn decode_lossy(bytes: &[u8]) -> (text: String)
    ensures
        text@ == lossy_text(bytes@),
        valid_utf8(bytes@) ==> text@ == decode_utf8(bytes@),
{
    String::from_utf8_lossy(bytes).into_owned()
}

/// The data that a line carries: what follows `data: ` in it, unless that is the
/// mark for the end of the stream. White space around the line does not count.
pub open spec fn line_data(line: Seq<char>) -> Option<Seq<char>> {
    match without_prefix(trimmed(line), "data: "@) {
        Some(data) => if data == "[DONE]"@ {
            None
        } else {
            Some(data)
        },
        None => None,
    }
}

/// The unfinished last line of a text, and the data of the lines before it.
pub open spec fn scan(text: Seq<char>) -> (Seq<char>, Seq<Seq<char>>)
    decreases text.len(),
{
    if text.len() == 0 {
        (seq![], seq![])
    } else {
        let (line, found) = scan(text.drop_last());
        if text.last() == '\n' {
            (
                seq![],
                match line_data(line) {
                    Some(data) => found.push(data),
                    None => found,
                },
            )
        } else {
            (line.push(text.last()), found)
        }
    }
}

/// What has arrived of an unfinished line.
pub struct LineBuffer {
    pub rest: String,
}

impl View for LineBuffer {
    type V = Seq<char>;

    open spec fn view(&self) -> Seq<char> {
        self.rest@
    }
}

fn data_of(line: &str) -> (data: Option<String>)
    ensures
        match data {
            Some(d) => line_data(line@) == Some(d@),
            None => line_data(line@) is None,
        },
{
    let bare = trim(line);
    match strip_prefix(bare.as_str(), "data: ") {
        Some(data) => if same_text(data.as_str(), "[DONE]") {
            None
        } else {
            Some(data)
        },
        None => None,
    }
}

impl LineBuffer {
    /// The buffer before anything arrived.
    pub fn new() -> (buffer: LineBuffer)
        ensures
            buffer@ == Seq::<char>::empty(),
    {
        LineBuffer { rest: String::new() }
    }

    /// Takes up a text and returns the data of the lines that it finishes.
    pub fn push_text(&mut self, text: &str) -> (found: Vec<String>)
        ensures
            final(self)@ == scan(old(self)@ + text@).0,
            views(found@) == scan(old(self)@ + text@).1,
    {
        let mut whole = self.rest.clone();
        whole.append(text);
        let chars = to_chars(whole.as_str());
        let mut found: Vec<String> = Vec::new();
        let mut start: usize = 0;
        let mut i: usize = 0;
        proof {
            assert(chars@.take(0) =~= seq![]);
            assert(chars@.subrange(0, 0) =~= seq![]);
            assert(views(found@) =~= seq![]);
        }
        while i < chars.len()
            invariant
                whole@ == old(self)@ + text@,
                chars@ == whole@,
                start <= i <= chars@.len(),
                scan(chars@.take(i as int)).0 == chars@.subrange(start as int, i as int),
                scan(chars@.take(i as int)).1 == views(found@),
            decreases chars@.len() - i,
        {
            let ghost before = found@;
            proof {
                let step = chars@.take(i + 1);
                assert(step.drop_last() =~= chars@.take(i as int));
                assert(step.last() == chars@[i as int]);
            }
            if chars[i] == '\n' {
                let line = whole.as_str().substring_char(start, i);
                if let Some(data) = data_of(line) {
                    found.push(data);
                    assert(views(found@) =~= views(before).push(data@));
                }
                start = i + 1;
                assert(chars@.subrange(start as int, i + 1) =~= seq![]);
            } else {
                assert(chars@.subrange(start as int, i + 1) =~= chars@.subrange(
                    start as int,
                    i as int,
                ).push(chars@[i as int]));
            }
            i += 1;
        }
        assert(chars@.take(chars@.len() as int) =~= chars@);
        self.rest = whole.as_str().substring_char(start, chars.len()).to_owned();
        found
    }

    /// Takes up a piece of the stream and returns the data of the lines that it
    /// finishes.
    pub fn push_bytes(&mut self, bytes: &[u8]) -> (found: Vec<String>)
        ensures
            final(self)@ == scan(old(self)@ + lossy_text(bytes@)).0,
            views(found@) == scan(old(self)@ + lossy_text(bytes@)).1,
            valid_utf8(bytes@) ==> final(self)@ == scan(old(self)@ + decode_utf8(bytes@)).0,
            valid_utf8(bytes@) ==> views(found@) == scan(old(self)@ + decode_utf8(bytes@)).1,
    {
        let text = decode_lossy(bytes);
        self.push_text(text.as_str())
    }
}

/// It does not matter how a text is cut into pieces: two pieces one after the
/// other give the same data, and leave the same unfinished line, as both at once.
pub proof fn law_pieces_compose(a: Seq<char>, b: Seq<char>)
    ensures
        scan(a + b).0 == scan(scan(a).0 + b).0,
        scan(a + b).1 == scan(a).1 + scan(scan(a).0 + b).1,
    decreases b.len(),
{
    let rest = scan(a).0;
    if b.len() == 0 {
        assert(a + b =~= a);
        assert(rest + b =~= rest);
        lemma_rest_is_plain(a);
        lemma_plain_scan(rest);
        assert(scan(a).1 + seq![] =~= scan(a).1);
    } else {
        law_pieces_compose(a, b.drop_last());
        assert((a + b).drop_last() =~= a + b.drop_last());
        assert((rest + b).drop_last() =~= rest + b.drop_last());
        let (line, found) = scan(rest + b.drop_last());
        assert(scan(a + b).1 =~= scan(a).1 + scan(rest + b).1);
    }
}

/// A text without line ends.
pub open spec fn one_line(text: Seq<char>) -> bool {
    forall|i: int| 0 <= i < text.len() ==> text[i] != '\n'
}

/// The unfinished line never holds a line end.
pub proof fn lemma_rest_is_plain(text: Seq<char>)
    ensures
        one_line(scan(text).0),
    decreases text.len(),
{
    if text.len() > 0 {
        lemma_rest_is_plain(text.drop_last());
    }
}

/// A text without line ends is an unfinished line as a whole.
pub proof fn lemma_plain_scan(text: Seq<char>)
    requires
        one_line(text),
    ensures
        scan(text).0 == text,
        scan(text).1.len() == 0,
    decreases text.len(),
{
    if text.len() > 0 {
        lemma_plain_scan(text.drop_last());
        assert(text.drop_last().push(text.last()) =~= text);
    }
}

/// A line carries what follows the mark for data in it, once the white space around
/// the line is gone; the mark for the end of the stream, and a line without the mark
/// for data, carry nothing.
pub proof fn law_line_carries_its_data(line: Seq<char>, data: Seq<char>)
    ensures
        trimmed(line) == "data: "@ + data && data != "[DONE]"@ ==> line_data(line) == Some(data),
        trimmed(line) == "data: "@ + "[DONE]"@ ==> line_data(line) is None,
        !"data: "@.is_prefix_of(trimmed(line)) ==> line_data(line) is None,
{
    law_prefix_and_rest(trimmed(line), "data: "@, data);
    law_prefix_and_rest(trimmed(line), "data: "@, "[DONE]"@);
}

/// A finished line gives its data, if it carries any, and leaves nothing; an
/// unfinished one gives nothing and is left.
pub proof fn law_lines_give_their_data(line: Seq<char>)
    requires
        one_line(line),
    ensures
        scan(line).0 == line,
        scan(line).1.len() == 0,
        scan(line.push('\n')).0.len() == 0,
        line_data(line) matches Some(data) ==> scan(line.push('\n')).1 == seq![data],
        line_data(line) is None ==> scan(line.push('\n')).1.len() == 0,
{
    lemma_plain_scan(line);
    assert(line.push('\n').drop_last() =~= line);
    assert(scan(line).1 =~= seq![]);
}

} // verus!
