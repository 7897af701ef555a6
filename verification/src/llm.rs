use vstd::prelude::*;
use crate::pdf::{split_lf, starts_with, str_starts_with};
use crate::mentorship::texts;
use crate::text::concat_str;

verus! {

/// The complete lines at the front of a stream buffer, each with its line feed, and what is
/// left after the last line feed.
pub open spec fn buffered_lines(buf: Seq<char>) -> (Seq<Seq<char>>, Seq<char>) {
    let p = split_lf(buf);
    (p.drop_last().map_values(|l: Seq<char>| l.push('\n')), p.last())
}

/// The payload of a server-sent event line: what follows "data: ", line feed included.
pub open spec fn line_data(line: Seq<char>) -> Option<Seq<char>> {
    if starts_with(line, "data: "@) {
        Some(line.skip(6))
    } else {
        None
    }
}

/// The payloads of the data lines among `lines`, up to the first payload that reads exactly
/// "[DONE]"; and whether that end mark was met.
pub open spec fn stream_payloads(lines: Seq<Seq<char>>) -> (Seq<Seq<char>>, bool)
    decreases lines.len(),
{
    if lines.len() == 0 {
        (Seq::empty(), false)
    } else {
        let (ps, done) = stream_payloads(lines.drop_last());
        if done {
            (ps, true)
        } else {
            match line_data(lines.last()) {
                Some(d) => if d == "[DONE]"@ {
                    (ps, true)
                } else {
                    (ps.push(d), false)
                },
                None => (ps, false),
            }
        }
    }
}

/// Adds a received piece of text to the stream buffer and takes the complete lines out of it:
/// returns the payloads of their data lines, in order, and whether the end mark came (after
/// which the stream stops). What follows the last line feed stays in the buffer.
pub fn receive_chunk(buffer: &mut String, text: &str) -> (r: (Vec<String>, bool))
    ensures
        final(buffer)@ == buffered_lines(old(buffer)@ + text@).1,
        (texts(r.0@), r.1) == stream_payloads(buffered_lines(old(buffer)@ + text@).0),
{
    let all = concat_str(buffer.as_str(), text);
    let lines = crate::pdf::split_lf_exec(all.as_str());
    let ghost p = split_lf(all@);
    let mut payloads: Vec<String> = Vec::new();
    let mut done = false;
    let last = lines.len() - 1;
    let ghost full = buffered_lines(all@).0;
    let mut i: usize = 0;
    while i < last
        invariant
            last == lines.len() - 1,
            lines.len() >= 1,
            i <= last,
            texts(lines@) == p,
            full == p.drop_last().map_values(|l: Seq<char>| l.push('\n')),
            (texts(payloads@), done) == stream_payloads(full.take(i as int)),
        decreases last - i,
    {
        let line = concat_str(lines[i].as_str(), "\n");
        proof {
            reveal_strlit("\n");
            assert(full.take(i as int + 1).drop_last() =~= full.take(i as int));
            assert(full.take(i as int + 1).last() == line@);
            reveal_strlit("data: ");
            reveal_strlit("[DONE]");
        }
        if !done && str_starts_with(line.as_str(), "data: ") {
            let n = line.unicode_len();
            let data = line.as_str().substring_char(6, n);
            if crate::text::eq_str(data, "[DONE]") {
                done = true;
            } else {
                let ghost before = payloads@;
                payloads.push(String::from_str(data));
                proof {
                    assert(texts(payloads@) =~= texts(before).push(data@));
                }
            }
        }
        i = i + 1;
    }
    proof {
        assert(full.take(last as int) =~= full);
    }
    *buffer = lines[last].clone();
    (payloads, done)
}

} // verus!
