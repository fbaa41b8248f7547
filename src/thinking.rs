//! The filter that keeps `<think…>…</think>` spans of a streamed answer
//! away from the client, character by character across chunk borders.

use vstd::prelude::*;
use crate::outside::{remove_think_spans, think_stripped};
use crate::text::{
    chars_of, has_prefix, matches_at, occurs_at, slice_text, starts_with, trim, trim_text,
};

verus! {

pub open spec fn has_suffix(s: Seq<char>, p: Seq<char>) -> bool {
    p.len() <= s.len() && occurs_at(s, s.len() - p.len(), p)
}

/// The filter's state: inside a thinking span or not, and the characters of
/// a tag being read.
pub struct FilterState {
    pub inside: bool,
    pub tag: Seq<char>,
}

/// One character: the next state and what is passed on.
pub open spec fn step(st: FilterState, c: char) -> (FilterState, Seq<char>) {
    if c == '<' {
        (FilterState { inside: st.inside, tag: seq!['<'] }, Seq::empty())
    } else if st.tag.len() > 0 {
        let t = st.tag.push(c);
        if has_prefix(t, "<think"@) && c == '>' {
            (FilterState { inside: true, tag: Seq::empty() }, Seq::empty())
        } else if st.inside && (has_suffix(t, "</think>"@) || has_suffix(t, "</thinking>"@)) {
            (FilterState { inside: false, tag: Seq::empty() }, Seq::empty())
        } else if !st.inside && !has_prefix(t, "<think"@) && c == '>' {
            (FilterState { inside: st.inside, tag: Seq::empty() }, t)
        } else {
            (FilterState { inside: st.inside, tag: t }, Seq::empty())
        }
    } else if !st.inside {
        (st, seq![c])
    } else {
        (st, Seq::empty())
    }
}

/// A run of characters: the final state and all that is passed on.
pub open spec fn run(st: FilterState, s: Seq<char>) -> (FilterState, Seq<char>)
    decreases s.len(),
{
    if s.len() == 0 {
        (st, Seq::empty())
    } else {
        let (mid, out) = run(st, s.drop_last());
        let (end, more) = step(mid, s.last());
        (end, out + more)
    }
}

/// A complete answer without its thinking spans, trimmed.
pub fn strip_thinking_tags(content: &str) -> (r: String)
    ensures
        r@ == trim(think_stripped(content@)),
{
    let stripped = remove_think_spans(content);
    trim_text(stripped.as_str())
}

/// Strips thinking spans from a stream of text chunks.
pub struct ThinkFilter {
    pub inside: bool,
    pub tag_buffer: String,
}

impl ThinkFilter {
    pub open spec fn state(&self) -> FilterState {
        FilterState { inside: self.inside, tag: self.tag_buffer@ }
    }

    pub fn new() -> (r: ThinkFilter)
        ensures
            !r.inside,
            r.tag_buffer@.len() == 0,
    {
        ThinkFilter { inside: false, tag_buffer: String::new() }
    }

    fn ends_with(s: &Vec<char>, p: &Vec<char>) -> (r: bool)
        ensures
            r == has_suffix(s@, p@),
    {
        if p.len() > s.len() {
            false
        } else {
            matches_at(s, s.len() - p.len(), p)
        }
    }

    /// Take in one chunk; returns what may be shown of it.
    pub fn feed(&mut self, chunk: &str) -> (r: String)
        ensures
            (final(self).state(), r@) == run(old(self).state(), chunk@),
    {
        let cv = chars_of(chunk);
        let think_close = chars_of("</think>");
        let thinking_close = chars_of("</thinking>");
        let mut out = String::new();
        let mut i: usize = 0;
        while i < cv.len()
            invariant
                cv@ == chunk@,
                think_close@ == "</think>"@,
                thinking_close@ == "</thinking>"@,
                i <= cv@.len(),
                (self.state(), out@) == run(old(self).state(), cv@.subrange(0, i as int)),
            decreases cv@.len() - i,
        {
            let c = cv[i];
            let one = slice_text(chunk, i, i + 1);
            let ghost st = self.state();
            let ghost prev = out@;
            proof {
                assert(cv@.subrange(0, i + 1).drop_last() =~= cv@.subrange(0, i as int));
                assert(one@ =~= seq![c]);
            }
            if c == '<' {
                self.tag_buffer = String::from_str("<");
                proof {
                    reveal_strlit("<");
                    assert(self.tag_buffer@ =~= seq!['<']);
                }
            } else if self.tag_buffer.unicode_len() > 0 {
                self.tag_buffer.append(one.as_str());
                assert(self.tag_buffer@ =~= st.tag.push(c));
                let tv = chars_of(self.tag_buffer.as_str());
                let opens = starts_with(self.tag_buffer.as_str(), "<think");
                if opens && c == '>' {
                    self.inside = true;
                    self.tag_buffer = String::new();
                    assert(self.tag_buffer@ =~= Seq::<char>::empty());
                } else if self.inside && (Self::ends_with(&tv, &think_close) || Self::ends_with(
                    &tv,
                    &thinking_close,
                )) {
                    self.inside = false;
                    self.tag_buffer = String::new();
                    assert(self.tag_buffer@ =~= Seq::<char>::empty());
                } else if !self.inside && !opens && c == '>' {
                    out.append(self.tag_buffer.as_str());
                    self.tag_buffer = String::new();
                    assert(self.tag_buffer@ =~= Seq::<char>::empty());
                }
            } else if !self.inside {
                out.append(one.as_str());
            }
            proof {
                assert(out@ =~= prev + step(st, c).1);
                assert(self.state() == step(st, c).0);
            }
            i = i + 1;
        }
        assert(cv@.subrange(0, cv@.len() as int) =~= cv@);
        out
    }
}

} // verus!
