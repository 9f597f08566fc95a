use vstd::prelude::*;

use crate::region::{path_view, regions, MapRange, MapRangeImpl, RegionView};
use crate::text::{
    chars_of, parse_unsigned, parse_unsigned_chars, pieces, split_at_char, split_tokens, string_of,
    tokens, views,
};

verus! {

/// A listing that breaks the line grammar. `line` is the index, counting
/// from 0, of the first line that breaks it.
#[derive(Debug, Clone, Copy, PartialEq, Eq, Structural)]
pub struct ParseError {
    pub line: usize,
}

/// The tokens `ts` joined with one space between neighbours.
pub open spec fn join_spaced(ts: Seq<Seq<char>>) -> Seq<char>
    decreases ts.len(),
{
    if ts.len() == 0 {
        Seq::empty()
    } else if ts.len() == 1 {
        ts[0]
    } else {
        join_spaced(ts.drop_last()) + seq![' '] + ts.last()
    }
}

/// The record that the fields `t` of one line describe: a hex range
/// `start-end`, the permissions (at least three characters), a hex offset,
/// the device, a decimal inode, then the path made of whatever fields are left.
pub open spec fn region_of(t: Seq<Seq<char>>) -> Option<RegionView> {
    let bounds = pieces(t[0], '-');
    if t.len() < 5 || bounds.len() < 2 {
        None
    } else {
        match (
            parse_unsigned(bounds[0], 16),
            parse_unsigned(bounds[1], 16),
            parse_unsigned(t[2], 16),
            parse_unsigned(t[4], 10),
        ) {
            (Some(start), Some(end), Some(offset), Some(inode)) => {
                if start < end && t[1].len() >= 3 {
                    Some(
                        RegionView {
                            start,
                            end,
                            offset,
                            dev: t[3],
                            flags: t[1],
                            inode,
                            path: if t.len() > 5 {
                                Some(join_spaced(t.skip(5)))
                            } else {
                                None
                            },
                        },
                    )
                } else {
                    None
                }
            },
            _ => None,
        }
    }
}

/// The records of the lines `ls`, whose first line has index `first`. The
/// first line without any field ends the listing; a line that breaks the
/// grammar fails the whole listing with its index.
pub open spec fn parse_lines(ls: Seq<Seq<char>>, first: nat) -> Result<Seq<RegionView>, nat>
    decreases ls.len(),
{
    if ls.len() == 0 || tokens(ls[0]).len() == 0 {
        Ok(Seq::empty())
    } else {
        match region_of(tokens(ls[0])) {
            None => Err(first),
            Some(r) => match parse_lines(ls.drop_first(), first + 1) {
                Ok(rs) => Ok(seq![r] + rs),
                Err(e) => Err(e),
            },
        }
    }
}

/// The records of a whole listing, one per line, in the order of the lines.
pub open spec fn parse_listing(s: Seq<char>) -> Result<Seq<RegionView>, nat> {
    parse_lines(pieces(s, '\n'), 0)
}

fn extend_chars(acc: &mut Vec<char>, x: &Vec<char>)
    ensures
        final(acc)@ == old(acc)@ + x@,
{
    let ghost start = acc@;
    let mut i: usize = 0;
    while i < x.len()
        invariant
            i <= x@.len(),
            acc@ == start + x@.take(i as int),
        decreases x@.len() - i,
    {
        assert(x@.take(i + 1) =~= x@.take(i as int).push(x@[i as int]));
        acc.push(x[i]);
        i = i + 1;
    }
    assert(x@.take(i as int) =~= x@);
}

/// The fields of `t` from index `from` on, joined with single spaces.
fn join_from(t: &Vec<Vec<char>>, from: usize) -> (r: Vec<char>)
    requires
        from <= t@.len(),
    ensures
        r@ == join_spaced(views(t@).skip(from as int)),
{
    let ghost ts = views(t@);
    let mut acc: Vec<char> = Vec::new();
    let mut i: usize = from;
    assert(ts.subrange(from as int, from as int).len() == 0);
    assert(acc@ =~= Seq::<char>::empty());
    while i < t.len()
        invariant
            from <= i <= t@.len(),
            ts == views(t@),
            acc@ == join_spaced(ts.subrange(from as int, i as int)),
        decreases t@.len() - i,
    {
        let ghost part = ts.subrange(from as int, i + 1);
        assert(part.drop_last() =~= ts.subrange(from as int, i as int));
        assert(part.last() == t@[i as int]@);
        if i > from {
            acc.push(' ');
        } else {
            assert(acc@ =~= Seq::<char>::empty());
        }
        extend_chars(&mut acc, &t[i]);
        if i == from {
            assert(acc@ =~= part[0]);
        } else {
            assert(acc@ =~= join_spaced(part));
        }
        i = i + 1;
    }
    assert(ts.subrange(from as int, i as int) =~= ts.skip(from as int));
    acc
}

/// The record of one line's fields; `None` where they break the grammar.
fn parse_fields(t: &Vec<Vec<char>>) -> (r: Option<MapRange>)
    requires
        t@.len() >= 1,
    ensures
        r is Some == region_of(views(t@)) is Some,
        r is Some ==> r->0.region() == region_of(views(t@))->0,
{
    let ghost ts = views(t@);
    let bounds = split_at_char(&t[0], '-');
    if t.len() < 5 || bounds.len() < 2 {
        return None;
    }
    assert(views(bounds@)[0] == bounds@[0]@);
    assert(views(bounds@)[1] == bounds@[1]@);
    let start = match parse_unsigned_chars(&bounds[0], 16) {
        Some(v) => v,
        None => return None,
    };
    let end = match parse_unsigned_chars(&bounds[1], 16) {
        Some(v) => v,
        None => return None,
    };
    let offset = match parse_unsigned_chars(&t[2], 16) {
        Some(v) => v,
        None => return None,
    };
    let inode = match parse_unsigned_chars(&t[4], 10) {
        Some(v) => v,
        None => return None,
    };
    let pathname = if t.len() > 5 {
        Some(string_of(&join_from(t, 5)))
    } else {
        None
    };
    let r = MapRange::new(
        start,
        end,
        offset,
        string_of(&t[3]),
        string_of(&t[1]),
        inode,
        pathname,
    );
    assert(r is Some ==> path_view(pathname) == region_of(ts)->0.path);
    r
}

/// Parses a memory-map listing, one region per line: fields separated by
/// whitespace, `start-end` and the offset in hex, the permissions, the device,
/// the inode in decimal and an optional path. Parsing stops at the first line
/// without any field. Any other line that breaks the grammar fails the
/// whole call, with the index of the first such line.
pub fn parse_proc_maps(contents: &str) -> (r: Result<Vec<MapRange>, ParseError>)
    ensures
        r is Ok <==> parse_listing(contents@) is Ok,
        r is Ok ==> parse_listing(contents@) == Ok::<Seq<RegionView>, nat>(regions(r->Ok_0@)),
        r is Err ==> parse_listing(contents@) == Err::<Seq<RegionView>, nat>(
            r->Err_0.line as nat,
        ),
{
    let chars = chars_of(contents);
    let lines = split_at_char(&chars, '\n');
    let ghost ls = views(lines@);
    let mut out: Vec<MapRange> = Vec::new();
    let mut i: usize = 0;
    assert(ls.skip(0) =~= ls);
    assert(regions(out@) + Seq::empty() =~= Seq::<RegionView>::empty());
    while i < lines.len()
        invariant
            i <= lines@.len(),
            ls == views(lines@),
            ls == pieces(contents@, '\n'),
            parse_listing(contents@) == match parse_lines(ls.skip(i as int), i as nat) {
                Ok(rs) => Ok(regions(out@) + rs),
                Err(e) => Err(e),
            },
        decreases lines@.len() - i,
    {
        assert(ls.skip(i as int)[0] == lines@[i as int]@);
        assert(ls.skip(i as int).drop_first() =~= ls.skip(i + 1));
        let t = split_tokens(&lines[i]);
        if t.len() == 0 {
            assert(regions(out@) + Seq::empty() =~= regions(out@));
            return Ok(out);
        }
        match parse_fields(&t) {
            None => {
                return Err(ParseError { line: i });
            },
            Some(m) => {
                let ghost before = out@;
                out.push(m);
                proof {
                    assert(regions(out@) =~= regions(before).push(m.region()));
                    match parse_lines(ls.skip(i + 1), (i + 1) as nat) {
                        Ok(rs) => {
                            assert(regions(before) + (seq![m.region()] + rs) =~= regions(out@)
                                + rs);
                        },
                        Err(e) => {},
                    }
                }
            },
        }
        i = i + 1;
    }
    assert(regions(out@) + Seq::empty() =~= regions(out@));
    Ok(out)
}

proof fn lemma_parse_lines_in_order(ls: Seq<Seq<char>>, first: nat)
    requires
        parse_lines(ls, first) is Ok,
    ensures
        parse_lines(ls, first)->Ok_0.len() <= ls.len(),
        forall|i: int|
            0 <= i < parse_lines(ls, first)->Ok_0.len() ==> region_of(tokens(ls[i])) == Some(
                #[trigger] parse_lines(ls, first)->Ok_0[i],
            ) && parse_lines(ls, first)->Ok_0[i].valid(),
    decreases ls.len(),
{
    if ls.len() == 0 || tokens(ls[0]).len() == 0 {
    } else {
        let rest = ls.drop_first();
        lemma_parse_lines_in_order(rest, first + 1);
        let rs = parse_lines(ls, first)->Ok_0;
        assert forall|i: int| 0 <= i < rs.len() implies region_of(tokens(ls[i])) == Some(
            #[trigger] rs[i],
        ) && rs[i].valid() by {
            if i > 0 {
                assert(rest[i - 1] == ls[i]);
            }
        }
    }
}

/// A listing that parses gives its records in the order of its lines: record
/// `i` is the one that line `i` describes, and every record is a non-empty range.
pub proof fn lemma_records_follow_lines(s: Seq<char>)
    requires
        parse_listing(s) is Ok,
    ensures
        forall|i: int|
            0 <= i < parse_listing(s)->Ok_0.len() ==> region_of(tokens(pieces(s, '\n')[i]))
                == Some(#[trigger] parse_listing(s)->Ok_0[i]) && parse_listing(s)->Ok_0[i].start
                < parse_listing(s)->Ok_0[i].end,
{
    lemma_parse_lines_in_order(pieces(s, '\n'), 0);
}

} // verus!
