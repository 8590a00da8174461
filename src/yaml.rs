use vstd::prelude::*;

use std::collections::VecDeque;

use crate::text::{chars_of, split_char, split_spec, string_views, trim_spec, trim_str};

verus! {

broadcast use vstd::seq::group_seq_axioms;

/// The lines of a text: the pieces between its line breaks.
pub open spec fn split_lines(s: Seq<char>) -> Seq<Seq<char>> {
    split_spec(s, '\n')
}

/// Whether a line opens a document: it starts with `---`.
pub open spec fn opens_document(line: Seq<char>) -> bool {
    line.len() >= 3 && line[0] == '-' && line[1] == '-' && line[2] == '-'
}

/// The documents with `d` added, unless `d` is empty.
pub open spec fn push_document(docs: Seq<Seq<char>>, d: Seq<char>) -> Seq<Seq<char>> {
    if d.len() > 0 {
        docs.push(d)
    } else {
        docs
    }
}

/// The documents found and the text gathered after reading the lines.
pub open spec fn stream_state(lines: Seq<Seq<char>>) -> (Seq<Seq<char>>, Seq<char>)
    decreases lines.len(),
{
    if lines.len() == 0 {
        (Seq::empty(), Seq::empty())
    } else {
        let (docs, buf) = stream_state(lines.drop_last());
        let line = lines.last();
        if opens_document(line) {
            (
                if buf.len() > 0 { push_document(docs, trim_spec(buf)) } else { docs },
                line + "\n"@,
            )
        } else if line == "..."@ {
            (push_document(docs, trim_spec(buf + line + "\n"@)), Seq::empty())
        } else {
            (docs, buf + line + "\n"@)
        }
    }
}

/// The documents of a multi-document YAML text: a line starting with `---`
/// opens a document, a line `...` closes one; each document is trimmed, and
/// empty ones are left out.
pub open spec fn stream_spec(s: Seq<char>) -> Seq<Seq<char>> {
    let (docs, buf) = stream_state(split_lines(s));
    if buf.len() > 0 {
        push_document(docs, trim_spec(buf))
    } else {
        docs
    }
}

fn starts_with_dashes(line: &String) -> (r: bool)
    ensures
        r == opens_document(line@),
{
    let cs = chars_of(line.as_str());
    cs.len() >= 3 && cs[0] == '-' && cs[1] == '-' && cs[2] == '-'
}

/// Appends the trimmed text to the documents unless it is empty.
fn push_trimmed(docs: &mut VecDeque<String>, buf: &String)
    ensures
        string_views(final(docs)@) == push_document(string_views(old(docs)@), trim_spec(buf@)),
{
    let doc = String::from_str(trim_str(buf.as_str()));
    let ghost before = string_views(docs@);
    if !doc.as_str().is_empty() {
        docs.push_back(doc);
        proof {
            assert(string_views(docs@) =~= before.push(doc@));
        }
    }
}

/// Splits a multi-document YAML text into its documents; see `stream_spec`.
pub fn read_stream(content: &str) -> (r: Result<VecDeque<String>, ()>)
    ensures
        r matches Ok(docs) && string_views(docs@) == stream_spec(content@),
{
    let lines = split_char(content, '\n');
    let ghost ls = string_views(lines@);
    let mut docs: VecDeque<String> = VecDeque::new();
    let mut buf = String::new();
    let mut i: usize = 0;
    proof {
        assert(ls.subrange(0, 0) =~= Seq::<Seq<char>>::empty());
        assert(string_views(docs@) =~= Seq::<Seq<char>>::empty());
    }
    while i < lines.len()
        invariant
            i <= lines@.len(),
            ls == string_views(lines@),
            ls == split_lines(content@),
            stream_state(ls.subrange(0, i as int)) == (string_views(docs@), buf@),
        decreases lines@.len() - i,
    {
        proof {
            assert(ls.subrange(0, i + 1).drop_last() =~= ls.subrange(0, i as int));
            assert(ls.subrange(0, i + 1).last() == lines@[i as int]@);
        }
        let line = &lines[i];
        if starts_with_dashes(line) {
            if !buf.as_str().is_empty() {
                push_trimmed(&mut docs, &buf);
            }
            buf = line.clone();
            buf.append("\n");
        } else if *line == String::from_str("...") {
            buf.append(line.as_str());
            buf.append("\n");
            push_trimmed(&mut docs, &buf);
            buf = String::new();
        } else {
            buf.append(line.as_str());
            buf.append("\n");
        }
        i += 1;
    }
    proof {
        assert(ls.subrange(0, lines@.len() as int) =~= ls);
    }
    if !buf.as_str().is_empty() {
        push_trimmed(&mut docs, &buf);
    }
    Ok(docs)
}

} // verus!
