//! `Doc` -> `todo.md`. Reading and writing the file itself is the program's
//! business; this is the text that goes into it.

use vstd::prelude::*;

use crate::model::{doc_text, Doc};
use crate::parse::parsed_from;
use crate::strs::{chars_of, push_char, push_str};
use crate::text::joined;

verus! {

/// The file's text. For an untouched document this is the input byte for
/// byte.
pub fn render(doc: &Doc) -> (r: String)
    requires
        doc.wf(),
    ensures
        r@ == doc_text(doc.lines@),
{
    let mut out = String::new();
    let mut i: usize = 0;
    while i < doc.lines.len()
        invariant
            i <= doc.lines@.len(),
            doc.wf(),
            out@ == doc_text(doc.lines@.take(i as int)),
        decreases doc.lines@.len() - i,
    {
        let line = &doc.lines[i];
        assert(doc.lines@[i as int].wf());
        let text = line.text();
        push_str(&mut out, text.as_str());
        push_str(&mut out, line.ending.as_str());
        assert(doc.lines@.take(i + 1).drop_last() =~= doc.lines@.take(i as int));
        i += 1;
    }
    assert(doc.lines@.take(doc.lines@.len() as int) =~= doc.lines@);
    out
}

/// Reading a file and writing it straight back changes nothing: `render`
/// gives back, character for character, every text `parse` read.
pub proof fn law_render_gives_back_what_parse_read(d: Doc, input: Seq<char>)
    requires
        parsed_from(d, input),
    ensures
        doc_text(d.lines@) == input,
{
}

/// The characters no file name may hold on one system or another.
pub open spec fn refused_in_names(c: char) -> bool {
    c == '/' || c == '\\' || c == ':' || c == '?' || c == '*' || c == '"' || c == '<' || c == '>'
        || c == '|'
}

/// The runs of `s` between refused characters, empty ones dropped, from
/// the current run `cur` on.
pub open spec fn name_parts(s: Seq<char>) -> Seq<Seq<char>>
    decreases s.len(),
{
    if s.len() == 0 {
        seq![]
    } else {
        let p = name_parts(s.drop_last());
        let c = s.last();
        if refused_in_names(c) {
            p
        } else if s.len() >= 2 && !refused_in_names(s[s.len() - 2]) && p.len() > 0 {
            p.update(p.len() - 1, p.last().push(c))
        } else {
            p.push(seq![c])
        }
    }
}

/// The backup's file name: the full target path flattened into one name, so
/// one list's backup never replaces another's, with nothing in it a file
/// system refuses.
pub open spec fn backup_name_of(target: Seq<char>) -> Seq<char> {
    joined(name_parts(target), seq!['-']) + ".bak"@
}

pub fn backup_name(target: &str) -> (r: String)
    ensures
        r@ == backup_name_of(target@),
{
    let v = chars_of(target);
    let mut parts: Vec<Vec<char>> = Vec::new();
    let mut i: usize = 0;
    assert(v@.take(0) =~= Seq::<char>::empty());
    while i < v.len()
        invariant
            i <= v@.len(),
            parts@.map_values(|x: Vec<char>| x@) == name_parts(v@.take(i as int)),
        decreases v@.len() - i,
    {
        let c = v[i];
        let ghost before = parts@.map_values(|x: Vec<char>| x@);
        let ghost t = v@.take(i + 1);
        assert(t.drop_last() =~= v@.take(i as int));
        assert(t.last() == c);
        let bad = c == '/' || c == '\\' || c == ':' || c == '?' || c == '*' || c == '"' || c == '<'
            || c == '>' || c == '|';
        if !bad {
            let joins = i >= 1 && {
                let p = v[i - 1];
                !(p == '/' || p == '\\' || p == ':' || p == '?' || p == '*' || p == '"' || p == '<'
                    || p == '>' || p == '|')
            } && parts.len() > 0;
            if i >= 1 {
                assert(t[t.len() - 2] == v@[i - 1]);
            }
            if joins {
                let n = parts.len();
                let mut last = parts.pop().unwrap();
                let ghost l0 = last@;
                last.push(c);
                parts.push(last);
                assert(parts@.map_values(|x: Vec<char>| x@) =~= before.update(
                    n - 1,
                    l0.push(c),
                ));
            } else {
                let mut one: Vec<char> = Vec::new();
                one.push(c);
                parts.push(one);
                assert(parts@.map_values(|x: Vec<char>| x@) =~= before.push(seq![c]));
            }
        }
        i += 1;
    }
    assert(v@.take(v@.len() as int) =~= v@);
    let ghost all = parts@.map_values(|x: Vec<char>| x@);
    let mut out = String::new();
    let mut k: usize = 0;
    assert(all.take(0) =~= Seq::<Seq<char>>::empty());
    proof {
        reveal_strlit("-");
    }
    assert("-"@ =~= seq!['-']);
    while k < parts.len()
        invariant
            k <= parts@.len(),
            all == parts@.map_values(|x: Vec<char>| x@),
            "-"@ == seq!['-'],
            out@ == joined(all.take(k as int), seq!['-']),
        decreases parts@.len() - k,
    {
        let word = crate::strs::string_of(&parts[k]);
        crate::text::push_joined_word(&mut out, Ghost(all.take(k as int)), k, "-", word.as_str());
        assert(all.take(k as int).push(word@) =~= all.take(k + 1));
        k += 1;
    }
    assert(all.take(parts@.len() as int) =~= all);
    push_str(&mut out, ".bak");
    out
}

/// Somebody else wrote the file first: the one failure that is not a
/// fault, answered with an offer to reload. It carries the path.
#[derive(Debug, Clone, PartialEq, Eq)]
pub struct Conflict(pub String);

impl Conflict {
    /// What the conflict says to the user.
    pub fn message(&self) -> (r: String)
        ensures
            r@ == self.0@ + " changed on disk since it was read \u{2014} nothing was written.\nRe-run to pick up the new version."@,
    {
        let mut s = String::new();
        push_str(&mut s, self.0.as_str());
        push_str(&mut s, " changed on disk since it was read \u{2014} nothing was written.\nRe-run to pick up the new version.");
        s
    }
}

} // verus!
