use vstd::prelude::*;
use vstd::string::*;

verus! {

/// The mathematical content of one mapped region.
pub struct RegionView {
    pub start: usize,
    pub end: usize,
    pub offset: usize,
    pub dev: Seq<char>,
    pub flags: Seq<char>,
    pub inode: usize,
    pub path: Option<Seq<char>>,
}

impl RegionView {
    /// A region is non-empty and carries the three permission columns.
    pub open spec fn valid(self) -> bool {
        self.start < self.end && self.flags.len() >= 3
    }

    /// Half-open containment of one address: `start <= addr < end`.
    pub open spec fn holds_addr(self, addr: int) -> bool {
        self.start <= addr < self.end
    }

    /// The non-empty interval `[addr, addr + size)` lies within `[start, end)`.
    pub open spec fn holds_range(self, addr: int, size: int) -> bool {
        size > 0 && self.start <= addr && addr + size <= self.end
    }

    pub open spec fn readable(self) -> bool {
        self.flags[0] == 'r'
    }

    pub open spec fn writable(self) -> bool {
        self.flags[1] == 'w'
    }

    pub open spec fn executable(self) -> bool {
        self.flags[2] == 'x'
    }
}

/// The characters of an optional path.
pub open spec fn path_view(p: Option<String>) -> Option<Seq<char>> {
    match p {
        Some(s) => Some(s@),
        None => None,
    }
}

/// The capability view shared by every kind of region record: size, start,
/// backing path and the three permission predicates.
pub trait MapRangeImpl {
    spec fn region(&self) -> RegionView;

    fn size(&self) -> (r: usize)
        ensures
            r == self.region().end - self.region().start,
    ;

    fn start(&self) -> (r: usize)
        ensures
            r == self.region().start,
            self.region().valid(),
    ;

    fn filename(&self) -> (r: Option<&str>)
        ensures
            r is Some == self.region().path is Some,
            r is Some ==> r->0@ == self.region().path->0,
    ;

    fn is_exec(&self) -> (r: bool)
        ensures
            r == self.region().executable(),
    ;

    fn is_write(&self) -> (r: bool)
        ensures
            r == self.region().writable(),
    ;

    fn is_read(&self) -> (r: bool)
        ensures
            r == self.region().readable(),
    ;
}

/// One mapped virtual-memory range of a process, with its metadata.
/// Immutable once built: every field is read through a method.
#[derive(Debug, PartialEq)]
pub struct MapRange {
    range_start: usize,
    range_end: usize,
    offset: usize,
    dev: String,
    flags: String,
    inode: usize,
    pathname: Option<String>,
}

impl MapRange {
    #[verifier::type_invariant]
    spec fn inv(self) -> bool {
        self.range_start < self.range_end && self.flags@.len() >= 3
    }

    /// Builds a record; `None` where the range is empty or reversed, or the
    /// permission field has fewer than three characters.
    pub fn new(
        range_start: usize,
        range_end: usize,
        offset: usize,
        dev: String,
        flags: String,
        inode: usize,
        pathname: Option<String>,
    ) -> (r: Option<MapRange>)
        ensures
            r is Some <==> (range_start < range_end && flags@.len() >= 3),
            r is Some ==> r->0.region() == (RegionView {
                start: range_start,
                end: range_end,
                offset,
                dev: dev@,
                flags: flags@,
                inode,
                path: path_view(pathname),
            }),
    {
        if range_start < range_end && flags.as_str().unicode_len() >= 3 {
            Some(MapRange { range_start, range_end, offset, dev, flags, inode, pathname })
        } else {
            None
        }
    }

    pub fn offset(&self) -> (r: usize)
        ensures
            r == self.region().offset,
    {
        self.offset
    }

    pub fn dev(&self) -> (r: &str)
        ensures
            r@ == self.region().dev,
    {
        self.dev.as_str()
    }

    pub fn flags(&self) -> (r: &str)
        ensures
            r@ == self.region().flags,
    {
        self.flags.as_str()
    }

    pub fn inode(&self) -> (r: usize)
        ensures
            r == self.region().inode,
    {
        self.inode
    }

    /// The first address past the region.
    pub fn end(&self) -> (r: usize)
        ensures
            r == self.region().end,
            self.region().valid(),
    {
        proof {
            use_type_invariant(self);
        }
        self.range_end
    }

    fn flag_is(&self, i: usize, c: char) -> (r: bool)
        requires
            i < 3,
        ensures
            r == (self.region().flags[i as int] == c),
    {
        proof {
            use_type_invariant(self);
        }
        self.flags.as_str().get_char(i) == c
    }
}

impl Clone for MapRange {
    fn clone(&self) -> (r: MapRange)
        ensures
            r.region() == self.region(),
    {
        proof {
            use_type_invariant(self);
        }
        let pathname = match &self.pathname {
            Some(p) => Some(p.clone()),
            None => None,
        };
        MapRange {
            range_start: self.range_start,
            range_end: self.range_end,
            offset: self.offset,
            dev: self.dev.clone(),
            flags: self.flags.clone(),
            inode: self.inode,
            pathname,
        }
    }
}

impl MapRangeImpl for MapRange {
    closed spec fn region(&self) -> RegionView {
        RegionView {
            start: self.range_start,
            end: self.range_end,
            offset: self.offset,
            dev: self.dev@,
            flags: self.flags@,
            inode: self.inode,
            path: path_view(self.pathname),
        }
    }

    fn size(&self) -> (r: usize) {
        proof {
            use_type_invariant(self);
        }
        self.range_end - self.range_start
    }

    fn start(&self) -> (r: usize) {
        proof {
            use_type_invariant(self);
        }
        self.range_start
    }

    fn filename(&self) -> (r: Option<&str>) {
        match &self.pathname {
            Some(p) => Some(p.as_str()),
            None => None,
        }
    }

    fn is_exec(&self) -> (r: bool) {
        self.flag_is(2, 'x')
    }

    fn is_write(&self) -> (r: bool) {
        self.flag_is(1, 'w')
    }

    fn is_read(&self) -> (r: bool) {
        self.flag_is(0, 'r')
    }
}

/// The regions that a sequence of records describes, in the same order.
pub open spec fn regions(v: Seq<MapRange>) -> Seq<RegionView> {
    v.map_values(|m: MapRange| m.region())
}

} // verus!
