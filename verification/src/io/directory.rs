//! Directory entries as the kernel packs them, and names under a directory.

use vstd::prelude::*;

verus! {

/// The bytes of a record before its type and its name.
pub const DIR_ENTRY_MIN_SIZE: usize = 18;

/// Which byte of a number comes first in memory.
#[derive(Debug, Clone, Copy, PartialEq, Eq, Structural)]
pub enum ByteOrder {
    /// The low one.
    LowFirst,
    /// The high one.
    HighFirst,
}

/// Two bytes as a number.
pub open spec fn u16_at(bytes: Seq<u8>, at: int, order: ByteOrder) -> int {
    match order {
        ByteOrder::LowFirst => bytes[at] + 256 * bytes[at + 1],
        ByteOrder::HighFirst => 256 * bytes[at] + bytes[at + 1],
    }
}

/// Eight bytes as a number.
pub open spec fn u64_at(bytes: Seq<u8>, at: int, order: ByteOrder) -> int {
    let pair = |i: int| u16_at(bytes, at + 2 * i, order);
    match order {
        ByteOrder::LowFirst => pair(0) + 0x1_0000 * pair(1) + 0x1_0000_0000 * pair(2) + 0x1_0000_0000_0000 * pair(3),
        ByteOrder::HighFirst => pair(3) + 0x1_0000 * pair(2) + 0x1_0000_0000 * pair(1) + 0x1_0000_0000_0000 * pair(0),
    }
}

/// Every byte of a number counts, and reading bytes in the one order is reading
/// them turned round in the other.
pub proof fn law_every_byte_counts(bytes: Seq<u8>, at: int, order: ByteOrder)
    ensures
        u16_at(bytes, at, ByteOrder::LowFirst) == bytes[at] + 0x100 * bytes[at + 1],
        u16_at(bytes, at, ByteOrder::HighFirst) == u16_at(seq![bytes[at + 1], bytes[at]], 0, ByteOrder::LowFirst),
        u64_at(bytes, at, ByteOrder::LowFirst) == bytes[at] + 0x100 * bytes[at + 1] + 0x1_0000 * bytes[at + 2]
            + 0x100_0000 * bytes[at + 3] + 0x1_0000_0000 * bytes[at + 4] + 0x100_0000_0000 * bytes[at + 5]
            + 0x1_0000_0000_0000 * bytes[at + 6] + 0x100_0000_0000_0000 * bytes[at + 7],
        u64_at(bytes, at, ByteOrder::HighFirst) == bytes[at + 7] + 0x100 * bytes[at + 6] + 0x1_0000 * bytes[at + 5]
            + 0x100_0000 * bytes[at + 4] + 0x1_0000_0000 * bytes[at + 3] + 0x100_0000_0000 * bytes[at + 2]
            + 0x1_0000_0000_0000 * bytes[at + 1] + 0x100_0000_0000_0000 * bytes[at],
{
}

/// Calls `u16::from_ne_bytes`, which reads two bytes as the machine stores a
/// number. Which of the two comes first depends on the machine, and is all that
/// is left open.
#[verifier::external_body]
fn native_u16(first: u8, second: u8) -> (value: u16)
    ensures
        value == first + 256 * second || value == 256 * first + second,
{
    u16::from_ne_bytes([first, second])
}

impl ByteOrder {
    /// The order in which bytes of 1 and 0 make the number `read`.
    pub fn from_reading(read: u16) -> (order: Self)
        ensures
            order == if read == 1 {
                ByteOrder::LowFirst
            } else {
                ByteOrder::HighFirst
            },
    {
        if read == 1 {
            ByteOrder::LowFirst
        } else {
            ByteOrder::HighFirst
        }
    }

    /// The order in which this machine stores numbers, found out by having it
    /// read one.
    fn native() -> (order: Self) {
        Self::from_reading(native_u16(1, 0))
    }
}

/// A name with no end.
#[derive(Debug, Clone, Copy, PartialEq, Eq, Structural)]
pub struct MissingNul;

/// Represents a readonly view into a dirent64.
///
///     struct linux_dirent64 {
///         ino64_t        d_ino;    /* 64-bit inode number */           off=0
///         off64_t        d_off;    /* Not an offset; see getdents() */ off=8
///         unsigned short d_reclen; /* Size of this dirent */           off=16
///         unsigned char  d_type;   /* File type */                     off=18
///         char           d_name[]; /* Filename (null-terminated) */    off=19
///     };
#[derive(Debug)]
pub struct DirEntry64<'a> {
    buf: &'a [u8],
    order: ByteOrder,
}

impl<'a> DirEntry64<'a> {
    /// The record's bytes.
    pub closed spec fn bytes(&self) -> Seq<u8> {
        self.buf@
    }

    /// How its numbers are stored.
    pub closed spec fn order(&self) -> ByteOrder {
        self.order
    }

    /// A view into the record that `buf` holds, as this machine stores it.
    pub fn new(buf: &'a [u8]) -> (entry: Self)
        ensures
            entry.bytes() == buf@,
    {
        Self::stored(buf, ByteOrder::native())
    }

    /// A view into the record that `buf` holds, with numbers stored in this
    /// order.
    pub fn stored(buf: &'a [u8], order: ByteOrder) -> (entry: Self)
        ensures
            entry.bytes() == buf@,
            entry.order() == order,
    {
        DirEntry64 { buf, order }
    }

    /// The inode number.
    pub fn d_ino(&self) -> (ino: u64)
        requires
            self.bytes().len() >= 8,
        ensures
            ino == u64_at(self.bytes(), 0, self.order()),
    {
        match self.order {
            ByteOrder::LowFirst => {
                let low: u64 = self.pair(0) as u64 + 0x1_0000 * self.pair(2) as u64;
                let high: u64 = self.pair(4) as u64 + 0x1_0000 * self.pair(6) as u64;
                low + 0x1_0000_0000 * high
            },
            ByteOrder::HighFirst => {
                let low: u64 = self.pair(6) as u64 + 0x1_0000 * self.pair(4) as u64;
                let high: u64 = self.pair(2) as u64 + 0x1_0000 * self.pair(0) as u64;
                low + 0x1_0000_0000 * high
            },
        }
    }

    /// The file type.
    pub fn d_type(&self) -> (file_type: u8)
        requires
            self.bytes().len() >= 19,
        ensures
            file_type == self.bytes()[18],
    {
        self.buf[18]
    }

    /// The size of the record.
    pub fn d_reclen(&self) -> (reclen: usize)
        requires
            self.bytes().len() >= 18,
        ensures
            reclen == u16_at(self.bytes(), 16, self.order()),
    {
        self.pair(16) as usize
    }

    fn pair(&self, at: usize) -> (value: u16)
        requires
            at + 1 < self.bytes().len(),
        ensures
            value == u16_at(self.bytes(), at as int, self.order()),
    {
        match self.order {
            ByteOrder::LowFirst => self.buf[at] as u16 + 256 * self.buf[at + 1] as u16,
            ByteOrder::HighFirst => 256 * self.buf[at] as u16 + self.buf[at + 1] as u16,
        }
    }

    /// The name, without the NUL that ends it. A name that nothing ends is an
    /// error.
    pub fn d_name(&self) -> (name: Result<&'a [u8], MissingNul>)
        requires
            self.bytes().len() >= 19,
        ensures
            name is Ok <==> exists|end: int|
                19 <= end < self.bytes().len() && #[trigger] self.bytes()[end] == 0,
            name matches Ok(name) ==> {
                &&& 19 + name@.len() < self.bytes().len()
                &&& name@ == self.bytes().subrange(19, 19 + name@.len() as int)
                &&& self.bytes()[19 + name@.len() as int] == 0
                &&& forall|i: int| 0 <= i < name@.len() ==> #[trigger] name@[i] != 0
            },
    {
        let mut end: usize = 19;
        while end < self.buf.len()
            invariant
                19 <= end <= self.buf@.len(),
                forall|i: int| 19 <= i < end ==> #[trigger] self.buf@[i] != 0,
            decreases self.buf@.len() - end,
        {
            if self.buf[end] == 0 {
                let name: &'a [u8] = vstd::slice::slice_subrange(self.buf, 19, end);
                proof {
                    assert(self.bytes()[end as int] == 0);
                    assert forall|i: int| 0 <= i < name@.len() implies #[trigger] name@[i] != 0 by {
                        assert(name@[i] == self.buf@[19 + i]);
                    }
                }
                return Ok(name);
            }
            end = end + 1;
        }
        Err(MissingNul)
    }
}

/// What is left to read of a list of dentries returned by getdents64.
#[derive(Debug)]
pub struct DirEntryIter<'a> {
    buf: &'a [u8],
    i: usize,
    order: ByteOrder,
}

impl<'a> DirEntryIter<'a> {
    /// Everything the kernel filled in.
    pub closed spec fn bytes(&self) -> Seq<u8> {
        self.buf@
    }

    /// Where the next record begins.
    pub closed spec fn position(&self) -> nat {
        self.i as nat
    }

    /// How the records' numbers are stored.
    pub closed spec fn order(&self) -> ByteOrder {
        self.order
    }

    /// Reading has not run past the end.
    pub closed spec fn wf(&self) -> bool {
        self.i <= self.buf@.len()
    }

    /// The next record's header is there in full.
    pub open spec fn has_header(&self) -> bool {
        self.position() + 18 <= self.bytes().len()
    }

    /// The size the next record gives itself.
    pub open spec fn next_reclen(&self) -> int {
        u16_at(self.bytes(), self.position() as int + 16, self.order())
    }

    /// Starts at the first record of `buf`, as this machine stores it.
    pub fn new(buf: &'a [u8]) -> (iter: Self)
        ensures
            iter.wf(),
            iter.bytes() == buf@,
            iter.position() == 0,
    {
        Self::stored(buf, ByteOrder::native())
    }

    /// Starts at the first record of `buf`, with numbers stored in this order.
    pub fn stored(buf: &'a [u8], order: ByteOrder) -> (iter: Self)
        ensures
            iter.wf(),
            iter.bytes() == buf@,
            iter.position() == 0,
            iter.order() == order,
    {
        DirEntryIter { buf, i: 0, order }
    }

    /// Reading has got past one record more.
    pub open spec fn past(&self, before: &Self, record: Seq<u8>) -> bool {
        &&& self.bytes() == before.bytes()
        &&& self.order() == before.order()
        &&& self.position() == before.position() + before.next_reclen()
        &&& self.position() <= self.bytes().len()
        &&& record == before.bytes().subrange(before.position() as int, self.position() as int)
    }

    /// The next record, or `None` when less than a record is left. A record of
    /// no size would never be got past, so a list that holds one must not come
    /// here.
    pub fn next(&mut self) -> (entry: Option<DirEntry64<'a>>)
        requires
            old(self).wf(),
            old(self).has_header() ==> old(self).next_reclen() != 0,
        ensures
            final(self).wf(),
            final(self).bytes() == old(self).bytes(),
            entry is Some <==> old(self).has_header() && old(self).position() + old(self).next_reclen()
                <= old(self).bytes().len(),
            final(self).order() == old(self).order(),
            entry is None ==> final(self).position() == old(self).position(),
            entry matches Some(entry) ==> final(self).past(old(self), entry.bytes()) && entry.order() == old(
                self,
            ).order(),
            entry matches Some(entry) ==> entry.bytes().len() >= 18 ==> entry.bytes().len() == u16_at(
                entry.bytes(),
                16,
                entry.order(),
            ),
            entry matches Some(entry) ==> final(self).position() == old(self).position() + entry.bytes().len(),
    {
        let left: usize = self.buf.len() - self.i;
        if left < DIR_ENTRY_MIN_SIZE {
            return None;
        }
        let header: DirEntry64<'a> = DirEntry64::stored(
            vstd::slice::slice_subrange(self.buf, self.i, self.i + DIR_ENTRY_MIN_SIZE),
            self.order,
        );
        let reclen: usize = header.d_reclen();
        if left < reclen {
            return None;
        }
        let end: usize = self.i + reclen;
        let entry: DirEntry64<'a> = DirEntry64::stored(
            vstd::slice::slice_subrange(self.buf, self.i, end),
            self.order,
        );
        self.i = end;
        Some(entry)
    }

    /// Reading gets on: while records come, each begins where the one before
    /// ended, and none is read twice.
    pub proof fn law_records_are_consecutive(before: &Self, between: &Self, after: &Self)
        requires
            before.has_header(),
            before.next_reclen() != 0,
            between.bytes() == before.bytes(),
            between.order() == before.order(),
            between.position() == before.position() + before.next_reclen(),
            between.has_header(),
            between.next_reclen() != 0,
            after.position() == between.position() + between.next_reclen(),
        ensures
            before.position() < between.position() < after.position(),
    {
    }
}

/// Records one behind the other.
pub open spec fn end_to_end(records: Seq<Seq<u8>>) -> Seq<u8>
    decreases records.len(),
{
    if records.len() == 0 {
        Seq::empty()
    } else {
        end_to_end(records.drop_last()) + records.last()
    }
}

impl<'a> DirEntryIter<'a> {
    /// However far reading has got, the records it gave, laid end to end, are
    /// what the kernel filled in up to there: nothing is left out between them
    /// and nothing is given that was not filled in.
    pub proof fn law_records_are_a_prefix(states: Seq<Self>, records: Seq<Seq<u8>>)
        requires
            states.len() == records.len() + 1,
            states[0].position() == 0,
            states[0].wf(),
            forall|i: int| 0 <= i < records.len() ==> states[i + 1].past(&states[i], #[trigger] records[i]),
        ensures
            states.last().bytes() == states[0].bytes(),
            states.last().position() <= states[0].bytes().len(),
            end_to_end(records) == states[0].bytes().take(states.last().position() as int),
        decreases records.len(),
    {
        let bytes = states[0].bytes();
        if records.len() == 0 {
            assert(bytes.take(0) =~= Seq::<u8>::empty());
        } else {
            let fewer = states.drop_last();
            let shorter = records.drop_last();
            assert forall|i: int| 0 <= i < shorter.len() implies fewer[i + 1].past(&fewer[i], #[trigger] shorter[i]) by {
                assert(shorter[i] == records[i]);
            }
            Self::law_records_are_a_prefix(fewer, shorter);
            let i = records.len() - 1;
            assert(states[i + 1].past(&states[i], records[i]));
            assert(fewer.last() == states[i]);
            assert(end_to_end(records) =~= bytes.take(states.last().position() as int));
        }
    }
}

/// Represents the return value of getdents64(2).
#[derive(Debug)]
pub struct GetDents {
    /// What the call was given to fill.
    pub buf: Box<[u8]>,
    /// Number of bytes the getdents64 call populated in buf.
    pub n: usize,
}

impl GetDents {
    /// Starts at the first record.
    pub fn iter(&self) -> (iter: DirEntryIter<'_>)
        requires
            self.n <= self.buf@.len(),
        ensures
            iter.wf(),
            iter.bytes() == self.buf@.take(self.n as int),
            iter.position() == 0,
    {
        DirEntryIter::new(vstd::slice::slice_subrange(&*self.buf, 0, self.n))
    }
}

/// The byte between the names of a path.
pub const SEPARATOR: u8 = 0x2f;

/// The byte a name that stands for a directory is made of.
pub const DOT: u8 = 0x2e;

/// The first `len` bytes of a path are one name, and not one that stands for
/// this directory or the one above.
pub open spec fn is_name(path: Seq<u8>, len: int) -> bool {
    &&& 0 < len <= path.len()
    &&& forall|i: int| 0 <= i < len ==> #[trigger] path[i] != SEPARATOR
    &&& !(len == 1 && path[0] == DOT)
    &&& !(len == 2 && path[0] == DOT && path[1] == DOT)
}

/// From `from` on a path holds nothing but separators and names that stand for
/// this directory, which add nothing to it.
pub open spec fn adds_nothing(path: Seq<u8>, from: int) -> bool {
    forall|i: int|
        from <= i < path.len() ==> #[trigger] path[i] == SEPARATOR || path[i] == DOT && path[i - 1]
            == SEPARATOR && (i + 1 == path.len() || path[i + 1] == SEPARATOR)
}

/// A path that is one name in the directory it is looked up in.
pub open spec fn is_plain_name(path: Seq<u8>) -> bool {
    exists|len: int| #[trigger]
        is_name(path, len) && (len == path.len() || path[len] == SEPARATOR) && adds_nothing(path, len)
}

/// What a plain name is, byte by byte. A name without separators is one unless
/// it is empty or stands for this directory or the one above; nothing that
/// begins with a separator is one; and behind its first separator a plain name
/// holds no other name, only separators and single dots between them.
pub proof fn law_plain_names(path: Seq<u8>)
    ensures
        (forall|i: int| 0 <= i < path.len() ==> #[trigger] path[i] != 0x2f) ==> (is_plain_name(path) <==> path.len() > 0
            && !(path.len() == 1 && path[0] == 0x2e) && !(path.len() == 2 && path[0] == 0x2e && path[1] == 0x2e)),
        is_plain_name(path) ==> path.len() > 0 && path[0] != 0x2f,
        is_plain_name(path) ==> forall|i: int, j: int|
            0 <= i < j < path.len() && #[trigger] path[i] == 0x2f && #[trigger] path[j] != 0x2f ==> path[j] == 0x2e
                && path[j - 1] == 0x2f && (j + 1 < path.len() ==> path[j + 1] == 0x2f),
{
    if forall|i: int| 0 <= i < path.len() ==> #[trigger] path[i] != 0x2f {
        let len = path.len() as int;
        if is_name(path, len) {
            assert(adds_nothing(path, len));
        }
        if is_plain_name(path) {
            let n = choose|n: int| #[trigger]
                is_name(path, n) && (n == path.len() || path[n] == SEPARATOR) && adds_nothing(path, n);
            assert(n == path.len());
        }
    }
    if is_plain_name(path) {
        let n = choose|n: int| #[trigger]
            is_name(path, n) && (n == path.len() || path[n] == SEPARATOR) && adds_nothing(path, n);
        assert(path[0] != SEPARATOR);
        assert forall|i: int, j: int|
            0 <= i < j < path.len() && #[trigger] path[i] == 0x2f && #[trigger] path[j] != 0x2f implies path[j] == 0x2e
            && path[j - 1] == 0x2f && (j + 1 < path.len() ==> path[j + 1] == 0x2f) by {
            assert(i >= n);
        }
    }
}

/// A separator, or a separator and a single dot, behind a plain name adds
/// nothing to it; any other name behind a separator does.
pub proof fn law_what_may_follow_a_name(path: Seq<u8>, name: Seq<u8>)
    requires
        is_plain_name(path),
        name.len() > 0,
        name[0] != 0x2f,
    ensures
        is_plain_name(path.push(0x2f)),
        !(name.len() == 1 && name[0] == 0x2e) && !(name.len() > 1 && name[0] == 0x2e && name[1] == 0x2f)
            ==> !is_plain_name(path.push(0x2f) + name),
{
    let n = choose|n: int| #[trigger]
        is_name(path, n) && (n == path.len() || path[n] == SEPARATOR) && adds_nothing(path, n);
    let longer = path.push(0x2f);
    assert(is_name(longer, n)) by {
        assert forall|i: int| 0 <= i < n implies #[trigger] longer[i] != SEPARATOR by {
            assert(path[i] != SEPARATOR);
        }
    }
    assert(adds_nothing(longer, n)) by {
        assert forall|i: int| n <= i < longer.len() implies #[trigger] longer[i] == SEPARATOR || longer[i] == DOT
            && longer[i - 1] == SEPARATOR && (i + 1 == longer.len() || longer[i + 1] == SEPARATOR) by {
            if i < path.len() {
                assert(longer[i] == path[i]);
            }
        }
    }
    let two = path.push(0x2f) + name;
    if is_plain_name(two) {
        law_plain_names(two);
        let i = path.len() as int;
        assert(two[i] == 0x2f);
        assert(two[i + 1] == name[0]);
        if name.len() > 1 {
            assert(two[i + 2] == name[1]);
        }
    }
}

/// Whether a path is anything but one name in the directory it is looked up
/// in.
pub fn contains_dir(path: &[u8]) -> (contains: bool)
    ensures
        contains == !is_plain_name(path@),
{
    let mut len: usize = 0;
    while len < path.len() && path[len] != SEPARATOR
        invariant
            len <= path@.len(),
            forall|i: int| 0 <= i < len ==> #[trigger] path@[i] != SEPARATOR,
        decreases path@.len() - len,
    {
        len = len + 1;
    }
    proof {
        assert forall|other: int| #[trigger]
            is_name(path@, other) && (other == path@.len() || path@[other] == SEPARATOR) implies other == len by {
            if other > len {
                assert(path@[len as int] != SEPARATOR);
            }
        }
    }
    if len == 0 || (len == 1 && path[0] == DOT) || (len == 2 && path[0] == DOT && path[1] == DOT) {
        return true;
    }
    assert(is_name(path@, len as int));
    let mut i: usize = len;
    while i < path.len()
        invariant
            0 < len <= i <= path@.len(),
            forall|other: int| #[trigger]
                is_name(path@, other) && (other == path@.len() || path@[other] == SEPARATOR) ==> other == len,
            forall|j: int|
                len <= j < i ==> #[trigger] path@[j] == SEPARATOR || path@[j] == DOT && path@[j - 1]
                    == SEPARATOR && (j + 1 == path@.len() || path@[j + 1] == SEPARATOR),
        decreases path@.len() - i,
    {
        let this: u8 = path[i];
        if this != SEPARATOR {
            let stays: bool = this == DOT && path[i - 1] == SEPARATOR && (i + 1 == path.len() || path[i
                + 1] == SEPARATOR);
            if !stays {
                assert(!adds_nothing(path@, len as int)) by {
                    assert(path@[i as int] != SEPARATOR);
                }
                return true;
            }
        }
        i = i + 1;
    }
    assert(adds_nothing(path@, len as int));
    false
}

/// Why a name cannot be opened under a directory.
#[derive(Debug, Clone, Copy, PartialEq, Eq, Structural)]
pub enum DirectoryError {
    /// Path cannot contain directories.
    ContainsDirectory,
    /// The directory has no path to look the name up under.
    NoPath,
}

/// A directory, by its descriptor and, where it is known, its path.
#[derive(Debug)]
pub struct Directory {
    fd: i32,
    path: Option<Vec<u8>>,
}

/// A path and a name under it.
pub open spec fn joined(base: Seq<u8>, name: Seq<u8>) -> Seq<u8> {
    if base.len() == 0 || base.last() == SEPARATOR {
        base + name
    } else {
        base.push(SEPARATOR) + name
    }
}

/// The path of a file under a directory begins with the directory's own path,
/// byte for byte, and ends with the file's name. Between the two there is
/// nothing, or one separator where the directory's path has none at its end; a
/// directory without a path of any length adds nothing at all.
pub proof fn law_a_file_lies_under_its_directory(base: Seq<u8>, name: Seq<u8>)
    ensures
        ({
            let path = joined(base, name);
            let between = path.len() - base.len() - name.len();
            &&& 0 <= between <= 1
            &&& path.take(base.len() as int) == base
            &&& path.skip(base.len() + between) == name
            &&& between == 1 ==> base.len() > 0 && base.last() != 0x2f && path[base.len() as int] == 0x2f
            &&& between == 0 ==> base.len() == 0 || base.last() == 0x2f
        }),
{
    let path = joined(base, name);
    let between = path.len() - base.len() - name.len();
    assert(path.take(base.len() as int) =~= base);
    assert(path.skip(base.len() + between) =~= name);
}

/// Two names under one directory give two paths, and one name under two
/// directories gives one path only where their paths differ by a separator at
/// the end.
pub proof fn law_paths_tell_files_apart(base: Seq<u8>, a: Seq<u8>, b: Seq<u8>)
    ensures
        joined(base, a) == joined(base, b) <==> a == b,
        base.len() > 0 && base.last() != 0x2f ==> joined(base.push(0x2f), a) == joined(base, a),
{
    law_a_file_lies_under_its_directory(base, a);
    law_a_file_lies_under_its_directory(base, b);
    let (pa, pb) = (joined(base, a), joined(base, b));
    if pa == pb {
        let (ba, bb) = (pa.len() - base.len() - a.len(), pb.len() - base.len() - b.len());
        assert(ba == bb);
        assert(pa.skip(base.len() + ba) == pb.skip(base.len() + bb));
    }
    if base.len() > 0 && base.last() != 0x2f {
        assert(joined(base.push(0x2f), a) =~= joined(base, a));
    }
}

impl Directory {
    /// The descriptor.
    pub closed spec fn spec_fd(&self) -> i32 {
        self.fd
    }

    /// The path, where it is known.
    pub closed spec fn spec_path(&self) -> Option<Seq<u8>> {
        match self.path {
            Some(path) => Some(path@),
            None => None,
        }
    }

    /// The directory behind a descriptor.
    pub fn from_parts(fd: i32, path: Option<Vec<u8>>) -> (directory: Self)
        ensures
            directory.spec_fd() == fd,
            directory.spec_path() == match path {
                Some(path) => Some(path@),
                None => None::<Seq<u8>>,
            },
    {
        Directory { fd, path }
    }

    /// The descriptor.
    pub fn as_raw_fd(&self) -> (fd: i32)
        ensures
            fd == self.spec_fd(),
    {
        self.fd
    }

    /// The path associated with this open directory, or `None` if there isn't
    /// one.
    pub fn path(&self) -> (path: Option<&Vec<u8>>)
        ensures
            path matches Some(path) ==> self.spec_path() == Some(path@),
            path is None <==> self.spec_path() is None,
    {
        match &self.path {
            Some(path) => Some(path),
            None => None,
        }
    }

    /// The path of a file to be opened or created under this directory. The
    /// name must be just a file name.
    pub fn file_path(&self, name: &[u8]) -> (path: Result<Vec<u8>, DirectoryError>)
        ensures
            path == Err::<Vec<u8>, _>(DirectoryError::ContainsDirectory) <==> !is_plain_name(name@),
            path == Err::<Vec<u8>, _>(DirectoryError::NoPath) <==> is_plain_name(name@)
                && self.spec_path() is None,
            path is Ok <==> is_plain_name(name@) && self.spec_path() is Some,
            path matches Ok(path) ==> path@ == joined(self.spec_path()->0, name@),
            path matches Ok(path) ==> {
                let base = self.spec_path()->0;
                let between = path@.len() - base.len() - name@.len();
                &&& 0 <= between <= 1
                &&& path@.take(base.len() as int) == base
                &&& path@.skip(base.len() + between) == name@
                &&& between == 1 <==> base.len() > 0 && base.last() != 0x2f
                &&& between == 1 ==> path@[base.len() as int] == 0x2f
            },
    {
        if contains_dir(name) {
            return Err(DirectoryError::ContainsDirectory);
        }
        match &self.path {
            None => Err(DirectoryError::NoPath),
            Some(base) => {
                let mut path: Vec<u8> = Vec::new();
                push_all(&mut path, base.as_slice());
                if base.len() > 0 && base[base.len() - 1] != SEPARATOR {
                    path.push(SEPARATOR);
                }
                push_all(&mut path, name);
                assert(path@ =~= joined(base@, name@));
                proof {
                    law_a_file_lies_under_its_directory(base@, name@);
                }
                Ok(path)
            },
        }
    }
}

fn push_all(out: &mut Vec<u8>, bytes: &[u8])
    ensures
        final(out)@ == old(out)@ + bytes@,
{
    let mut i: usize = 0;
    while i < bytes.len()
        invariant
            i <= bytes@.len(),
            out@ == old(out)@ + bytes@.take(i as int),
        decreases bytes@.len() - i,
    {
        out.push(bytes[i]);
        assert(bytes@.take(i + 1) =~= bytes@.take(i as int).push(bytes@[i as int]));
        i = i + 1;
    }
    assert(bytes@.take(i as int) =~= bytes@);
}

/// The error the kernel gives for a directory that is there already.
pub const EEXIST: i32 = 17;

/// What creating a directory comes to: one that is there already will do.
pub fn created(errno: Option<i32>) -> (outcome: Result<(), i32>)
    ensures
        outcome is Ok <==> errno is None || errno == Some(EEXIST),
        outcome is Ok <==> errno is None || errno == Some(17i32),
        outcome matches Err(e) ==> errno == Some(e),
{
    match errno {
        None => Ok(()),
        Some(e) => if e == EEXIST {
            Ok(())
        } else {
            Err(e)
        },
    }
}

} // verus!
