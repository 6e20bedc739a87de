//! Splitting template text into lines.
use vstd::prelude::*;

verus! {

/// A line without the carriage return that ended it, if any.
pub open spec fn strip_cr(line: Seq<char>) -> Seq<char> {
    if line.len() > 0 && line.last() == '\r' {
        line.drop_last()
    } else {
        line
    }
}

/// Reading a text from the start: the lines ended so far, each without the
/// carriage return before its newline, and the line still open.
pub open spec fn split_state(s: Seq<char>) -> (Seq<Seq<char>>, Seq<char>)
    decreases s.len(),
{
    if s.len() == 0 {
        (Seq::empty(), Seq::empty())
    } else {
        let (done, open) = split_state(s.drop_last());
        if s.last() == '\n' {
            (done.push(strip_cr(open)), Seq::empty())
        } else {
            (done, open.push(s.last()))
        }
    }
}

/// The lines of a text: split at each newline, a carriage return right before a
/// newline dropped.
pub open spec fn text_lines(s: Seq<char>) -> Seq<Seq<char>> {
    split_state(s).0.push(split_state(s).1)
}

/// The lines that hold at least one character, in order.
pub open spec fn nonempty(lines: Seq<Seq<char>>) -> Seq<Seq<char>>
    decreases lines.len(),
{
    if lines.len() == 0 {
        Seq::empty()
    } else if lines.last().len() > 0 {
        nonempty(lines.drop_last()).push(lines.last())
    } else {
        nonempty(lines.drop_last())
    }
}

/// The lines of a template text: its lines that are not empty.
pub open spec fn template_lines(s: Seq<char>) -> Seq<Seq<char>> {
    nonempty(text_lines(s))
}

/// The characters of each line.
pub open spec fn lines_view(lines: Seq<Vec<char>>) -> Seq<Seq<char>> {
    lines.map_values(|l: Vec<char>| l@)
}

/// Split a text into its lines that are not empty; a carriage return right before
/// a newline is dropped.
pub fn split_template_lines(text: &str) -> (r: Vec<Vec<char>>)
    ensures
        lines_view(r@) == template_lines(text@),
{
    let mut lines: Vec<Vec<char>> = Vec::new();
    let mut open: Vec<char> = Vec::new();
    for c in it: text.chars()
        invariant
            it.seq() == text@,
            open@ == split_state(text@.take(it.index() as int)).1,
            lines_view(lines@) == nonempty(split_state(text@.take(it.index() as int)).0),
    {
        let ghost before = text@.take(it.index() as int);
        let ghost after = text@.take(it.index() + 1);
        proof {
            assert(after.drop_last() =~= before);
            assert(after.last() == c);
            let done = split_state(before).0;
            let line = strip_cr(split_state(before).1);
            assert(done.push(line).drop_last() =~= done);
        }
        if c == '\n' {
            if open.len() > 0 && open[open.len() - 1] == '\r' {
                open.pop();
            }
            if open.len() > 0 {
                let ghost old_lines = lines@;
                lines.push(open);
                proof {
                    assert(lines_view(lines@) =~= lines_view(old_lines).push(strip_cr(split_state(before).1)));
                }
            }
            open = Vec::new();
            proof {
                assert(open@ =~= Seq::<char>::empty());
            }
        } else {
            open.push(c);
        }
    }
    proof {
        assert(text@.take(text@.len() as int) =~= text@);
    }
    if open.len() > 0 {
        let ghost old_lines = lines@;
        lines.push(open);
        proof {
            assert(lines_view(lines@) =~= lines_view(old_lines).push(split_state(text@).1));
        }
    }
    proof {
        let t = text_lines(text@);
        assert(t.drop_last() =~= split_state(text@).0);
    }
    lines
}

/// The fields of a line: split at each comma.
pub open spec fn split_fields(line: Seq<char>) -> Seq<Seq<char>>
    decreases line.len(),
{
    if line.len() == 0 {
        seq![Seq::empty()]
    } else {
        let prev = split_fields(line.drop_last());
        if line.last() == ',' {
            prev.push(Seq::empty())
        } else {
            prev.update(prev.len() - 1, prev.last().push(line.last()))
        }
    }
}

/// A line always has one field or more.
pub proof fn lemma_split_fields_len(line: Seq<char>)
    ensures
        split_fields(line).len() >= 1,
    decreases line.len(),
{
    if line.len() > 0 {
        lemma_split_fields_len(line.drop_last());
    }
}

/// The characters of a text.
pub fn chars_of(text: &str) -> (r: Vec<char>)
    ensures
        r@ == text@,
{
    let mut v: Vec<char> = Vec::new();
    for c in it: text.chars()
        invariant
            it.seq() == text@,
            v@ == it.seq().take(it.index() as int),
    {
        v.push(c);
    }
    proof {
        assert(text@.take(text@.len() as int) =~= text@);
    }
    v
}

/// Split a line into its fields at each comma.
pub fn split_line_fields(line: &Vec<char>) -> (r: Vec<Vec<char>>)
    ensures
        lines_view(r@) == split_fields(line@),
{
    let mut fields: Vec<Vec<char>> = Vec::new();
    let mut field: Vec<char> = Vec::new();
    let mut i: usize = 0;
    while i < line.len()
        invariant
            0 <= i <= line@.len(),
            lines_view(fields@).push(field@) == split_fields(line@.take(i as int)),
        decreases line@.len() - i,
    {
        let ghost before = line@.take(i as int);
        let ghost after = line@.take(i + 1);
        proof {
            assert(after.drop_last() =~= before);
            lemma_split_fields_len(before);
        }
        let c = line[i];
        if c == ',' {
            let ghost old_fields = fields@;
            fields.push(field);
            field = Vec::new();
            proof {
                assert(lines_view(fields@) =~= lines_view(old_fields).push(split_fields(before).last()));
                assert(lines_view(fields@).push(field@) =~= split_fields(after));
            }
        } else {
            let ghost old_field = field@;
            field.push(c);
            proof {
                assert(lines_view(fields@).push(field@) =~= split_fields(after));
            }
        }
        i = i + 1;
    }
    proof {
        assert(line@.take(line@.len() as int) =~= line@);
    }
    let ghost old_fields = fields@;
    fields.push(field);
    proof {
        assert(lines_view(fields@) =~= lines_view(old_fields).push(field@));
    }
    fields
}

} // verus!
