use crate::bytes::{le16, le32, read_le16, read_le32};
use crate::boot::BPB;
use crate::driver::{cluster_span, fat_link, Driver};
use crate::error::{Fat32Error, Fat32Result};
use vstd::prelude::*;

verus! {

pub const DIR_ATTR_READ_ONLY: u8 = 0x01;

pub const DIR_ATTR_HIDDEN: u8 = 0x02;

pub const DIR_ATTR_SYSTEM: u8 = 0x04;

pub const DIR_ATTR_VOLUME_ID: u8 = 0x08;

pub const DIR_ATTR_DIRECTORY: u8 = 0x10;

pub const DIR_ATTR_ARCHIVE: u8 = 0x20;

pub const DIR_ATTR_LONG_FILE_NAME: u8 = 0x0F;

/// The size of one directory slot.
pub const FAT32_DIR_SIZE: usize = 32;

/// An 8.3 directory entry as it lies on disk.
#[derive(Clone, Copy, Debug)]
pub struct FatEntry {
    /// DIR_Name
    pub name: [u8; 11],
    /// DIR_Attr
    pub attr: u8,
    /// DIR_NTRes
    pub nt_res: u8,
    /// DIR_CrtTimeTenth
    pub crt_time_tenth: u8,
    /// DIR_CrtTime
    pub crt_time: u16,
    /// DIR_CrtDate
    pub crt_date: u16,
    /// DIR_LstAccDate
    pub lst_acc_date: u16,
    /// DIR_FstClusHI
    pub fst_clus_hi: u16,
    /// DIR_WrtTime
    pub wrt_time: u16,
    /// DIR_WrtDate
    pub wrt_date: u16,
    /// DIR_FstClusLO
    pub fst_clus_lo: u16,
    /// DIR_FileSize
    pub file_size: u32,
}

/// The fields of an 8.3 entry as mathematical values.
pub ghost struct EntryView {
    pub name: Seq<u8>,
    pub attr: u8,
    pub nt_res: u8,
    pub crt_time_tenth: u8,
    pub crt_time: u16,
    pub crt_date: u16,
    pub lst_acc_date: u16,
    pub fst_clus_hi: u16,
    pub wrt_time: u16,
    pub wrt_date: u16,
    pub fst_clus_lo: u16,
    pub file_size: u32,
}

impl View for FatEntry {
    type V = EntryView;

    open spec fn view(&self) -> EntryView {
        EntryView {
            name: self.name@,
            attr: self.attr,
            nt_res: self.nt_res,
            crt_time_tenth: self.crt_time_tenth,
            crt_time: self.crt_time,
            crt_date: self.crt_date,
            lst_acc_date: self.lst_acc_date,
            fst_clus_hi: self.fst_clus_hi,
            wrt_time: self.wrt_time,
            wrt_date: self.wrt_date,
            fst_clus_lo: self.fst_clus_lo,
            file_size: self.file_size,
        }
    }
}

/// The 8.3 entry that a 32-byte slot holds.
pub open spec fn entry_of(slot: Seq<u8>) -> EntryView {
    EntryView {
        name: slot.subrange(0, 11),
        attr: slot[11],
        nt_res: slot[12],
        crt_time_tenth: slot[13],
        crt_time: le16(slot, 14),
        crt_date: le16(slot, 16),
        lst_acc_date: le16(slot, 18),
        fst_clus_hi: le16(slot, 20),
        wrt_time: le16(slot, 22),
        wrt_date: le16(slot, 24),
        fst_clus_lo: le16(slot, 26),
        file_size: le32(slot, 28),
    }
}

/// The checksum of the first `n` bytes of a short name: rotate the sum right
/// by one bit, add the next byte, keep eight bits.
pub open spec fn checksum_upto(name: Seq<u8>, n: nat) -> u8
    decreases n,
{
    if n == 0 {
        0
    } else {
        let s = checksum_upto(name, (n - 1) as nat);
        ((s / 2 + (s % 2) * 128 + name[n - 1]) % 256) as u8
    }
}

/// The checksum of an 11-byte short name.
pub open spec fn short_name_checksum(name: Seq<u8>) -> u8 {
    checksum_upto(name, 11)
}

/// Where the name ends once the spaces that pad `name[start..end]` are cut.
pub open spec fn trimmed_end(name: Seq<u8>, start: int, end: int) -> int
    decreases end - start,
{
    if end > start && name[end - 1] == 0x20 {
        trimmed_end(name, start, end - 1)
    } else {
        end
    }
}

/// A byte of a short name as a UTF-16 unit, with `A..Z` lowered on demand.
pub open spec fn cased(b: u8, lower: bool) -> u16 {
    if lower && 0x41 <= b <= 0x5A {
        (b + 32) as u16
    } else {
        b as u16
    }
}

/// The units of `name[start..end]`, cased.
pub open spec fn name_piece(name: Seq<u8>, start: int, end: int, lower: bool) -> Seq<u16> {
    Seq::new((end - start) as nat, |i: int| cased(name[start + i], lower))
}

/// The display form of an 11-byte short name: base and extension without
/// their padding, joined by a dot where there is an extension. Bit 3 of
/// `nt_res` lowers the base, bit 4 the extension.
pub open spec fn short_name_of(name: Seq<u8>, nt_res: u8) -> Seq<u16> {
    let base = name_piece(name, 0, trimmed_end(name, 0, 8), nt_res / 8 % 2 == 1);
    let ext = name_piece(name, 8, trimmed_end(name, 8, 11), nt_res / 16 % 2 == 1);
    if ext.len() > 0 {
        base + seq![0x2Eu16] + ext
    } else {
        base
    }
}

/// Appends the cased units of `name[start..end]`.
fn push_piece(out: &mut Vec<u16>, name: &[u8; 11], start: usize, end: usize, lower: bool)
    requires
        start <= end <= 11,
    ensures
        final(out)@ == old(out)@ + name_piece(name@, start as int, end as int, lower),
{
    let mut i: usize = start;
    while i < end
        invariant
            start <= i <= end <= 11,
            out@ == old(out)@ + name_piece(name@, start as int, i as int, lower),
        decreases end - i,
    {
        let b: u8 = name[i];
        let unit: u16 = if lower && 0x41 <= b && b <= 0x5A {
            (b + 32) as u16
        } else {
            b as u16
        };
        out.push(unit);
        i += 1;
        assert(out@ =~= old(out)@ + name_piece(name@, start as int, i as int, lower));
    }
}

/// Finds where `name[start..end]` ends without its padding.
fn trim_end(name: &[u8; 11], start: usize, end: usize) -> (k: usize)
    requires
        start <= end <= 11,
    ensures
        k == trimmed_end(name@, start as int, end as int),
        start <= k <= end,
{
    let mut k: usize = end;
    while k > start && name[k - 1] == 0x20
        invariant
            start <= k <= end <= 11,
            trimmed_end(name@, start as int, end as int) == trimmed_end(
                name@,
                start as int,
                k as int,
            ),
        decreases k,
    {
        k -= 1;
    }
    k
}

impl FatEntry {
    /// Decodes a slot as an 8.3 entry. A slot that starts with a zero byte
    /// marks the end of the directory and gives `None`.
    pub fn read(buf: &Vec<u8>) -> (r: Fat32Result<Option<FatEntry>>)
        ensures
            buf@.len() < 32 ==> r == Err::<Option<FatEntry>, Fat32Error>(Fat32Error::IOError),
            buf@.len() >= 32 && buf@[0] == 0 ==> r == Ok::<Option<FatEntry>, Fat32Error>(None),
            buf@.len() >= 32 && buf@[0] != 0 ==> (r matches Ok(Some(e)) && e@ == entry_of(buf@)),
    {
        if buf.len() < FAT32_DIR_SIZE {
            return Err(Fat32Error::IOError);
        }
        if buf[0] == 0 {
            return Ok(None);
        }
        let entry = FatEntry {
            name: [
                buf[0],
                buf[1],
                buf[2],
                buf[3],
                buf[4],
                buf[5],
                buf[6],
                buf[7],
                buf[8],
                buf[9],
                buf[10],
            ],
            attr: buf[11],
            nt_res: buf[12],
            crt_time_tenth: buf[13],
            crt_time: read_le16(buf, 14),
            crt_date: read_le16(buf, 16),
            lst_acc_date: read_le16(buf, 18),
            fst_clus_hi: read_le16(buf, 20),
            wrt_time: read_le16(buf, 22),
            wrt_date: read_le16(buf, 24),
            fst_clus_lo: read_le16(buf, 26),
            file_size: read_le32(buf, 28),
        };
        assert(entry.name@ =~= buf@.subrange(0, 11));
        Ok(Some(entry))
    }

    /// The entry that stands for the root directory, which has none on
    /// disk: a directory at the root cluster, dated 1 January 1980.
    pub fn root(driver: &Driver) -> (e: FatEntry)
        ensures
            e@ == root_entry(driver.bpb.bpb_root_clus),
    {
        let cluster: u32 = driver.bpb.bpb_root_clus;
        let e = FatEntry {
            name: [0x2F, 0, 0, 0, 0, 0, 0, 0, 0, 0, 0],
            attr: DIR_ATTR_DIRECTORY,
            nt_res: 0,
            crt_time_tenth: 0,
            crt_time: 0,
            crt_date: 0x0021,
            lst_acc_date: 0x0021,
            wrt_time: 0,
            wrt_date: 0x0021,
            fst_clus_hi: (cluster / 65536) as u16,
            fst_clus_lo: (cluster % 65536) as u16,
            file_size: 0,
        };
        assert(e.name@ =~= root_entry(cluster).name);
        e
    }

    /// The display form of the short name.
    pub fn short_name(&self) -> (r: Vec<u16>)
        ensures
            r@ == short_name_of(self.name@, self.nt_res),
    {
        let base_end: usize = trim_end(&self.name, 0, 8);
        let ext_end: usize = trim_end(&self.name, 8, 11);
        let mut out: Vec<u16> = Vec::new();
        push_piece(&mut out, &self.name, 0, base_end, self.nt_res / 8 % 2 == 1);
        if ext_end > 8 {
            out.push(0x2E);
            push_piece(&mut out, &self.name, 8, ext_end, self.nt_res / 16 % 2 == 1);
        }
        assert(out@ =~= short_name_of(self.name@, self.nt_res));
        out
    }

    /// The checksum that every long-name slot of this entry must carry.
    pub fn name_checksum(&self) -> (r: u8)
        ensures
            r == short_name_checksum(self.name@),
    {
        let mut sum: u8 = 0;
        let mut i: usize = 0;
        while i < 11
            invariant
                i <= 11,
                sum == checksum_upto(self.name@, i as nat),
            decreases 11 - i,
        {
            let rotated: u16 = (sum / 2) as u16 + (sum % 2) as u16 * 128;
            sum = ((rotated + self.name[i] as u16) % 256) as u8;
            i += 1;
        }
        sum
    }
}

/// The fields of the synthetic root entry.
pub open spec fn root_entry(root_cluster: u32) -> EntryView {
    EntryView {
        name: seq![0x2Fu8, 0u8, 0u8, 0u8, 0u8, 0u8, 0u8, 0u8, 0u8, 0u8, 0u8],
        attr: 0x10,
        nt_res: 0,
        crt_time_tenth: 0,
        crt_time: 0,
        crt_date: 0x0021,
        lst_acc_date: 0x0021,
        fst_clus_hi: (root_cluster / 65536) as u16,
        wrt_time: 0,
        wrt_date: 0x0021,
        fst_clus_lo: (root_cluster % 65536) as u16,
        file_size: 0,
    }
}

/// A long-file-name slot as it lies on disk.
#[derive(Clone, Copy, Debug)]
pub struct LFN {
    /// LDIR_Ord
    pub ord: u8,
    /// LDIR_Name1
    pub name1: [u8; 10],
    /// LDIR_Attr
    pub attr: u8,
    /// LDIR_Type
    pub type_: u8,
    /// LDIR_Chksum
    pub chksum: u8,
    /// LDIR_Name2
    pub name2: [u8; 12],
    /// LDIR_FstClusLO
    pub fst_clus_lo: u16,
    /// LDIR_Name3
    pub name3: [u8; 4],
}

/// What a long-name slot says: its ordinal, its checksum and its thirteen
/// UTF-16 units.
pub ghost struct LfnView {
    pub ord: u8,
    pub chksum: u8,
    pub units: Seq<u16>,
}

/// Where unit `i` of a long-name slot lies in the slot: five units from
/// byte 1, six from byte 14, two from byte 28.
pub open spec fn lfn_unit_offset(i: int) -> int {
    if i < 5 {
        1 + 2 * i
    } else if i < 11 {
        14 + 2 * (i - 5)
    } else {
        28 + 2 * (i - 11)
    }
}

/// The long-name slot that a 32-byte slot holds.
pub open spec fn lfn_of(slot: Seq<u8>) -> LfnView {
    LfnView {
        ord: slot[0],
        chksum: slot[13],
        units: Seq::new(13, |i: int| le16(slot, lfn_unit_offset(i))),
    }
}

impl LFN {
    /// The bytes of the three name fields, in order.
    pub open spec fn name_bytes(&self) -> Seq<u8> {
        self.name1@ + self.name2@ + self.name3@
    }
}

impl View for LFN {
    type V = LfnView;

    open spec fn view(&self) -> LfnView {
        LfnView {
            ord: self.ord,
            chksum: self.chksum,
            units: Seq::new(13, |i: int| le16(self.name_bytes(), 2 * i)),
        }
    }
}

impl LFN {
    /// Decodes a slot as a long-name slot.
    pub fn read(buf: &Vec<u8>) -> (r: Fat32Result<LFN>)
        ensures
            buf@.len() < 32 ==> r == Err::<LFN, Fat32Error>(Fat32Error::IOError),
            buf@.len() >= 32 ==> (r matches Ok(l) && l@ == lfn_of(buf@) && l.attr == buf@[11]
                && l.type_ == buf@[12] && l.fst_clus_lo == le16(buf@, 26)),
    {
        if buf.len() < FAT32_DIR_SIZE {
            return Err(Fat32Error::IOError);
        }
        let l = LFN {
            ord: buf[0],
            name1: [
                buf[1],
                buf[2],
                buf[3],
                buf[4],
                buf[5],
                buf[6],
                buf[7],
                buf[8],
                buf[9],
                buf[10],
            ],
            attr: buf[11],
            type_: buf[12],
            chksum: buf[13],
            name2: [
                buf[14],
                buf[15],
                buf[16],
                buf[17],
                buf[18],
                buf[19],
                buf[20],
                buf[21],
                buf[22],
                buf[23],
                buf[24],
                buf[25],
            ],
            fst_clus_lo: read_le16(buf, 26),
            name3: [buf[28], buf[29], buf[30], buf[31]],
        };
        proof {
            let nb = l.name_bytes();
            assert(nb.len() == 26);
            assert forall|i: int| 0 <= i < 13 implies le16(nb, 2 * i) == le16(
                buf@,
                lfn_unit_offset(i),
            ) by {
                assert(nb[2 * i] == buf@[lfn_unit_offset(i)]);
                assert(nb[2 * i + 1] == buf@[lfn_unit_offset(i) + 1]);
            }
            assert(l@.units =~= lfn_of(buf@).units);
        }
        Ok(l)
    }

    /// Appends the thirteen units of this slot to `buffer`.
    pub fn construct_name(&self, buffer: &mut Vec<u16>)
        ensures
            final(buffer)@ == old(buffer)@ + self@.units,
    {
        let mut i: usize = 0;
        while i < 13
            invariant
                i <= 13,
                buffer@ == old(buffer)@ + self@.units.subrange(0, i as int),
            decreases 13 - i,
        {
            let (lo, hi): (u8, u8) = if i < 5 {
                (self.name1[2 * i], self.name1[2 * i + 1])
            } else if i < 11 {
                (self.name2[2 * (i - 5)], self.name2[2 * (i - 5) + 1])
            } else {
                (self.name3[2 * (i - 11)], self.name3[2 * (i - 11) + 1])
            };
            let unit: u16 = lo as u16 + hi as u16 * 256;
            assert(unit == self@.units[i as int]);
            buffer.push(unit);
            i += 1;
            assert(buffer@ =~= old(buffer)@ + self@.units.subrange(0, i as int));
        }
        assert(self@.units.subrange(0, 13) =~= self@.units);
    }
}

/// The units of a run of long-name slots in name order. On disk the slot
/// that holds the end of the name comes first, so the run is read backwards.
pub open spec fn joined_units(parts: Seq<LfnView>) -> Seq<u16>
    decreases parts.len(),
{
    if parts.len() == 0 {
        Seq::empty()
    } else {
        parts.last().units + joined_units(parts.drop_last())
    }
}

/// Reading a run backwards is reading it by ordinal: where the ordinals on
/// disk count down to 1, as the format writes them, the `k`-th thirteen
/// units of the joined name are those of the slot with ordinal `k + 1`.
pub proof fn lemma_joined_by_ordinal(parts: Seq<LfnView>, k: int)
    requires
        forall|i: int| 0 <= i < parts.len() ==> (#[trigger] parts[i]).units.len() == 13,
        forall|i: int| 0 <= i < parts.len() ==> (#[trigger] parts[i]).ord % 64 == parts.len() - i,
        0 <= k < parts.len(),
    ensures
        joined_units(parts).len() == 13 * parts.len(),
        parts[parts.len() - 1 - k].ord % 64 == k + 1,
        joined_units(parts).subrange(13 * k, 13 * k + 13) == parts[parts.len() - 1 - k].units,
{
    lemma_joined_length(parts);
    lemma_joined_block(parts, k);
}

/// The joined name has thirteen units for each slot.
pub proof fn lemma_joined_length(parts: Seq<LfnView>)
    requires
        forall|i: int| 0 <= i < parts.len() ==> (#[trigger] parts[i]).units.len() == 13,
    ensures
        joined_units(parts).len() == 13 * parts.len(),
    decreases parts.len(),
{
    if parts.len() > 0 {
        let rest = parts.drop_last();
        assert forall|i: int| 0 <= i < rest.len() implies (#[trigger] rest[i]).units.len()
            == 13 by {
            assert(rest[i] == parts[i]);
        }
        lemma_joined_length(rest);
    }
}

/// The `k`-th thirteen units of the joined name are those of the slot
/// that stands `k` places before the end of the run.
pub proof fn lemma_joined_block(parts: Seq<LfnView>, k: int)
    requires
        forall|i: int| 0 <= i < parts.len() ==> (#[trigger] parts[i]).units.len() == 13,
        0 <= k < parts.len(),
    ensures
        joined_units(parts).subrange(13 * k, 13 * k + 13) == parts[parts.len() - 1 - k].units,
    decreases parts.len(),
{
    let rest = parts.drop_last();
    assert forall|i: int| 0 <= i < rest.len() implies (#[trigger] rest[i]).units.len() == 13 by {
        assert(rest[i] == parts[i]);
    }
    lemma_joined_length(rest);
    if k == 0 {
        assert(joined_units(parts).subrange(0, 13) =~= parts.last().units);
    } else {
        assert(joined_units(parts).subrange(13 * k, 13 * k + 13) =~= joined_units(rest).subrange(
            13 * (k - 1),
            13 * (k - 1) + 13,
        ));
        lemma_joined_block(rest, k - 1);
        assert(rest[rest.len() - 1 - (k - 1)] == parts[parts.len() - 1 - k]);
    }
}

/// The units of `s` before its first zero unit, all of them where it has
/// none.
pub open spec fn until_nul(s: Seq<u16>) -> Seq<u16>
    decreases s.len(),
{
    if s.len() == 0 || s[0] == 0 {
        Seq::empty()
    } else {
        seq![s[0]] + until_nul(s.drop_first())
    }
}

/// Every slot of the run carries the checksum of the short name.
pub open spec fn checksums_match(name: Seq<u8>, parts: Seq<LfnView>) -> bool {
    forall|i: int| 0 <= i < parts.len() ==> (#[trigger] parts[i]).chksum == short_name_checksum(name)
}

/// The long name that a run of slots gives an entry: none without slots,
/// none where a checksum differs.
pub open spec fn long_name_of(name: Seq<u8>, parts: Seq<LfnView>) -> Option<Seq<u16>> {
    if parts.len() > 0 && checksums_match(name, parts) {
        Some(until_nul(joined_units(parts)))
    } else {
        None
    }
}

/// A logical directory record as mathematical values.
pub ghost struct RecordView {
    pub short_name: Seq<u16>,
    pub long_name: Option<Seq<u16>>,
    pub entry: EntryView,
}

impl RecordView {
    /// The name by which the record is found: the long one where it has one.
    pub open spec fn name(self) -> Seq<u16> {
        match self.long_name {
            Some(l) => l,
            None => self.short_name,
        }
    }

    /// The first cluster of the record's chain.
    pub open spec fn cluster_num(self) -> u32 {
        (self.entry.fst_clus_hi * 65536 + self.entry.fst_clus_lo) as u32
    }

    pub open spec fn is_dir(self) -> bool {
        self.entry.attr & 0x10 == 0x10
    }

    /// A volume label: the volume bit without the directory bit.
    pub open spec fn is_volume_label(self) -> bool {
        self.entry.attr & 0x08 == 0x08 && !self.is_dir()
    }
}

/// The record that an 8.3 entry and the slots before it make.
pub open spec fn record_of(entry: EntryView, parts: Seq<LfnView>) -> RecordView {
    RecordView {
        short_name: short_name_of(entry.name, entry.nt_res),
        long_name: long_name_of(entry.name, parts),
        entry,
    }
}

/// The synthetic record of the root directory.
pub open spec fn root_record(root_cluster: u32) -> RecordView {
    RecordView { short_name: seq![0x2Fu16], long_name: None, entry: root_entry(root_cluster) }
}

/// The views of a run of slots.
pub open spec fn lfn_views(parts: Seq<LFN>) -> Seq<LfnView> {
    parts.map_values(|l: LFN| l@)
}

/// A record has a long name only where every slot of its run carries the
/// checksum of its short name.
pub proof fn lemma_long_name_checksums(entry: EntryView, parts: Seq<LfnView>)
    requires
        record_of(entry, parts).long_name is Some,
    ensures
        parts.len() > 0,
        forall|i: int|
            0 <= i < parts.len() ==> (#[trigger] parts[i]).chksum == short_name_checksum(
                entry.name,
            ),
{
}

/// A copy of a name.
pub fn copy_units(src: &Vec<u16>) -> (out: Vec<u16>)
    ensures
        out@ == src@,
{
    let mut out: Vec<u16> = Vec::new();
    let mut i: usize = 0;
    while i < src.len()
        invariant
            i <= src.len(),
            out@ == src@.subrange(0, i as int),
        decreases src.len() - i,
    {
        out.push(src[i]);
        i += 1;
        assert(out@ =~= src@.subrange(0, i as int));
    }
    assert(src@.subrange(0, i as int) =~= src@);
    out
}

/// The units of `src` up to its first zero.
fn cut_at_nul(src: &Vec<u16>) -> (out: Vec<u16>)
    ensures
        out@ == until_nul(src@),
{
    let mut out: Vec<u16> = Vec::new();
    let mut i: usize = 0;
    proof {
        assert(src@.subrange(0, src@.len() as int) =~= src@);
        assert(out@ + until_nul(src@) =~= until_nul(src@));
    }
    while i < src.len() && src[i] != 0
        invariant
            i <= src.len(),
            out@ + until_nul(src@.subrange(i as int, src@.len() as int)) == until_nul(src@),
        decreases src.len() - i,
    {
        let ghost rest = src@.subrange(i as int, src@.len() as int);
        assert(rest.drop_first() =~= src@.subrange(i + 1, src@.len() as int));
        let ghost before = out@;
        out.push(src[i]);
        i += 1;
        assert(out@ + until_nul(src@.subrange(i as int, src@.len() as int)) =~= before
            + until_nul(rest));
    }
    proof {
        let rest = src@.subrange(i as int, src@.len() as int);
        assert(until_nul(rest) =~= Seq::<u16>::empty());
        assert(out@ + Seq::<u16>::empty() =~= out@);
    }
    out
}

/// A logical directory record: an 8.3 entry with its names.
#[derive(Debug)]
pub struct FatDirectory {
    pub short_name: Vec<u16>,
    pub long_name: Option<Vec<u16>>,
    pub entry: FatEntry,
}

impl View for FatDirectory {
    type V = RecordView;

    open spec fn view(&self) -> RecordView {
        RecordView {
            short_name: self.short_name@,
            long_name: match self.long_name {
                Some(l) => Some(l@),
                None => None,
            },
            entry: self.entry@,
        }
    }
}

impl Clone for FatDirectory {
    fn clone(&self) -> (r: Self)
        ensures
            r@ == self@,
    {
        FatDirectory {
            short_name: copy_units(&self.short_name),
            long_name: match &self.long_name {
                Some(l) => Some(copy_units(l)),
                None => None,
            },
            entry: self.entry,
        }
    }
}

/// The hour, minute and second of a FAT time word.
pub fn fat32_get_time(time: u16) -> (r: (u32, u32, u32))
    ensures
        r.0 == time / 2048,
        r.1 == time / 32 % 64,
        r.2 == (time % 32) * 2,
{
    ((time / 2048) as u32, (time / 32 % 64) as u32, (time % 32) as u32 * 2)
}

/// The year, month and day of a FAT date word.
pub fn fat32_get_date(date: u16) -> (r: (i32, u32, u32))
    ensures
        r.0 == 1980 + date / 512,
        r.1 == date / 32 % 16,
        r.2 == date % 32,
{
    (1980 + (date / 512) as i32, (date / 32 % 16) as u32, (date % 32) as u32)
}

/// A calendar date and time of day as a FAT entry records them, in local
/// time. Nothing says that the day exists: month 0 can be written on disk.
#[derive(Clone, Copy, Debug, PartialEq, Eq, Structural)]
pub struct FatDateTime {
    pub year: i32,
    pub month: u32,
    pub day: u32,
    pub hour: u32,
    pub minute: u32,
    pub second: u32,
}

/// The moment that a date word and a time word name.
pub open spec fn date_time_of(date: u16, time: u16) -> FatDateTime {
    FatDateTime {
        year: (1980 + date / 512) as i32,
        month: (date / 32 % 16) as u32,
        day: (date % 32) as u32,
        hour: (time / 2048) as u32,
        minute: (time / 32 % 64) as u32,
        second: ((time % 32) * 2) as u32,
    }
}

/// Decodes a date word and a time word.
pub fn decode_date_time(date: u16, time: u16) -> (r: FatDateTime)
    ensures
        r == date_time_of(date, time),
{
    let (hour, minute, second) = fat32_get_time(time);
    let (year, month, day) = fat32_get_date(date);
    FatDateTime { year, month, day, hour, minute, second }
}

/// How many clusters the chain from `c` holds, walking at most `fuel`
/// links: a chain that is longer has a cycle, which is corruption. Cluster
/// numbers below 2 start no chain.
pub open spec fn chain_length(image: Seq<u8>, bpb: crate::boot::BPB, c: u32, fuel: nat)
    -> Fat32Result<nat>
    decreases fuel,
{
    if c < 2 {
        Ok(0)
    } else if fuel == 0 {
        Err(Fat32Error::FileCorrupt)
    } else {
        match fat_link(image, bpb, c) {
            Err(e) => Err(e),
            Ok(None) => Ok(1),
            Ok(Some(next)) => match chain_length(image, bpb, next, (fuel - 1) as nat) {
                Ok(n) => Ok((n + 1) as nat),
                Err(e) => Err(e),
            },
        }
    }
}

/// A chain walk ends within its fuel: the count it gives never exceeds the
/// number of links it was allowed.
pub proof fn lemma_chain_length_bounded(image: Seq<u8>, bpb: crate::boot::BPB, c: u32, fuel: nat)
    ensures
        chain_length(image, bpb, c, fuel) matches Ok(n) ==> n <= fuel,
    decreases fuel,
{
    if c >= 2 && fuel > 0 {
        match fat_link(image, bpb, c) {
            Ok(Some(next)) => lemma_chain_length_bounded(image, bpb, next, (fuel - 1) as nat),
            _ => {},
        }
    }
}

impl FatDirectory {
    /// Builds the record of an 8.3 entry from the long-name slots that stood
    /// before it, in disk order. The long name is kept only where every slot
    /// carries the checksum of the short name.
    pub fn new(entry: FatEntry, lfn_parts: &Vec<LFN>) -> (r: FatDirectory)
        ensures
            r@ == record_of(entry@, lfn_views(lfn_parts@)),
            r@.long_name is Some ==> forall|i: int|
                0 <= i < lfn_parts@.len() ==> (#[trigger] lfn_parts@[i]).chksum
                    == short_name_checksum(entry.name@),
    {
        let sfn_checksum: u8 = entry.name_checksum();
        let ghost parts = lfn_views(lfn_parts@);
        let short_name = entry.short_name();
        let mut matching: bool = true;
        let mut k: usize = 0;
        while k < lfn_parts.len()
            invariant
                k <= lfn_parts.len(),
                parts == lfn_views(lfn_parts@),
                sfn_checksum == short_name_checksum(entry.name@),
                matching <==> forall|i: int|
                    0 <= i < k ==> (#[trigger] parts[i]).chksum == sfn_checksum,
            decreases lfn_parts.len() - k,
        {
            if lfn_parts[k].chksum != sfn_checksum {
                matching = false;
                assert(parts[k as int].chksum != sfn_checksum);
            }
            k += 1;
        }
        if lfn_parts.len() == 0 || !matching {
            return FatDirectory { short_name, long_name: None, entry };
        }
        let mut full_name: Vec<u16> = Vec::new();
        let mut i: usize = lfn_parts.len();
        proof {
            assert(parts.subrange(0, parts.len() as int) =~= parts);
            assert(full_name@ + joined_units(parts) =~= joined_units(parts));
        }
        while i > 0
            invariant
                i <= lfn_parts.len(),
                parts == lfn_views(lfn_parts@),
                full_name@ + joined_units(parts.subrange(0, i as int)) == joined_units(parts),
            decreases i,
        {
            let ghost before = full_name@;
            let ghost head = parts.subrange(0, i as int);
            assert(head.drop_last() =~= parts.subrange(0, i - 1));
            assert(head.last() == lfn_parts@[i - 1]@);
            i -= 1;
            lfn_parts[i].construct_name(&mut full_name);
            assert(full_name@ + joined_units(parts.subrange(0, i as int)) =~= before + joined_units(
                head,
            ));
        }
        proof {
            assert(parts.subrange(0, parts.len() as int) =~= parts);
            assert(joined_units(parts.subrange(0, 0)) =~= Seq::<u16>::empty());
            assert(full_name@ + Seq::<u16>::empty() =~= full_name@);
        }
        let long = cut_at_nul(&full_name);
        assert forall|i: int| 0 <= i < lfn_parts@.len() implies (#[trigger] lfn_parts@[i]).chksum
            == short_name_checksum(entry.name@) by {
            assert(parts[i].chksum == sfn_checksum);
        }
        FatDirectory { short_name, long_name: Some(long), entry }
    }

    /// The record of the root directory.
    pub fn root(driver: &Driver) -> (r: FatDirectory)
        ensures
            r@ == root_record(driver.bpb.bpb_root_clus),
    {
        let mut name: Vec<u16> = Vec::new();
        name.push(0x2F);
        assert(name@ =~= seq![0x2Fu16]);
        FatDirectory { short_name: name, long_name: None, entry: FatEntry::root(driver) }
    }

    /// The name by which the record is found.
    pub fn name(&self) -> (r: &Vec<u16>)
        ensures
            r@ == self@.name(),
    {
        match &self.long_name {
            Some(l) => l,
            None => &self.short_name,
        }
    }

    pub fn cluster_num(&self) -> (r: u32)
        ensures
            r == self@.cluster_num(),
    {
        self.entry.fst_clus_hi as u32 * 65536 + self.entry.fst_clus_lo as u32
    }

    /// Every bit of `attrs` is set in the record's attributes.
    pub fn matches_attr(&self, attrs: u8) -> (r: bool)
        ensures
            r == (self@.entry.attr & attrs == attrs),
    {
        self.entry.attr & attrs == attrs
    }

    pub fn is_file(&self) -> (r: bool)
        ensures
            r == !self@.is_dir(),
    {
        !self.is_dir()
    }

    pub fn is_dir(&self) -> (r: bool)
        ensures
            r == self@.is_dir(),
    {
        self.matches_attr(DIR_ATTR_DIRECTORY)
    }

    /// The record is a volume label, which no listing shows.
    pub fn is_volume_label(&self) -> (r: bool)
        ensures
            r == self@.is_volume_label(),
    {
        self.matches_attr(DIR_ATTR_VOLUME_ID) && !self.is_dir()
    }

    pub fn is_deleted(&self) -> (r: bool)
        ensures
            r == (self@.entry.name[0] == 0xE5),
    {
        self.entry.name[0] == 0xE5
    }

    /// Checks if directory is .
    pub fn is_current_dir(&self) -> (r: bool)
        ensures
            r == (self@.entry.name[0] == 0x2E && self@.entry.name[1] == 0x20),
    {
        self.entry.name[0] == 0x2E && self.entry.name[1] == 0x20
    }

    /// Checks if directory is ..
    pub fn is_parent_dir(&self) -> (r: bool)
        ensures
            r == (self@.entry.name[0] == 0x2E && self@.entry.name[1] == 0x2E),
    {
        self.entry.name[0] == 0x2E && self.entry.name[1] == 0x2E
    }

    pub fn file_size(&self) -> (r: u64)
        ensures
            r == self@.entry.file_size,
    {
        self.entry.file_size as u64
    }

    pub fn name_checksum(&self) -> (r: u8)
        ensures
            r == short_name_checksum(self@.entry.name),
    {
        self.entry.name_checksum()
    }

    /// Counts the clusters of the record's chain. A chain longer than the
    /// data region has clusters is reported as corrupt.
    pub fn n_clusters(&self, driver: &Driver) -> (r: Fat32Result<u64>)
        requires
            driver.wf(),
        ensures
            match chain_length(
                driver.image(),
                driver.bpb,
                self@.cluster_num(),
                driver.bpb.total_data_clusters_spec() as nat,
            ) {
                Ok(n) => r == Ok::<u64, Fat32Error>(n as u64),
                Err(e) => r == Err::<u64, Fat32Error>(e),
            },
    {
        proof {
            driver.bpb.lemma_valid_geometry();
        }
        let limit: u64 = driver.bpb.total_data_clusters();
        let mut fuel: u64 = limit;
        let mut n_clusters: u64 = 0;
        let mut current: u32 = self.cluster_num();
        if current < 2 {
            return Ok(0);
        }
        loop
            invariant
                driver.wf(),
                current >= 2,
                fuel <= limit,
                n_clusters + fuel == limit,
                limit == driver.bpb.total_data_clusters_spec(),
                match chain_length(driver.image(), driver.bpb, current, fuel as nat) {
                    Ok(n) => chain_length(
                        driver.image(),
                        driver.bpb,
                        self@.cluster_num(),
                        limit as nat,
                    ) == Ok::<nat, Fat32Error>((n + n_clusters) as nat),
                    Err(e) => chain_length(
                        driver.image(),
                        driver.bpb,
                        self@.cluster_num(),
                        limit as nat,
                    ) == Err::<nat, Fat32Error>(e),
                },
            decreases fuel,
        {
            if fuel == 0 {
                return Err(Fat32Error::FileCorrupt);
            }
            proof {
                lemma_chain_length_bounded(driver.image(), driver.bpb, current, fuel as nat);
            }
            match driver.read_fat(current) {
                Err(e) => {
                    return Err(e);
                },
                Ok(None) => {
                    return Ok(n_clusters + 1);
                },
                Ok(Some(next)) => {
                    proof {
                        lemma_chain_length_bounded(
                            driver.image(),
                            driver.bpb,
                            next,
                            (fuel - 1) as nat,
                        );
                    }
                    n_clusters += 1;
                    fuel -= 1;
                    current = next;
                },
            }
        }
    }

    /// When the entry was created.
    pub fn create_time(&self) -> (r: FatDateTime)
        ensures
            r == date_time_of(self@.entry.crt_date, self@.entry.crt_time),
    {
        decode_date_time(self.entry.crt_date, self.entry.crt_time)
    }

    /// When the entry was last written.
    pub fn write_time(&self) -> (r: FatDateTime)
        ensures
            r == date_time_of(self@.entry.wrt_date, self@.entry.wrt_time),
    {
        decode_date_time(self.entry.wrt_date, self.entry.wrt_time)
    }

    /// The day the entry was last read; FAT keeps no time of day for it.
    pub fn access_time(&self) -> (r: FatDateTime)
        ensures
            r == date_time_of(self@.entry.lst_acc_date, 0),
    {
        decode_date_time(self.entry.lst_acc_date, 0)
    }
}

/// A cursor over the slots of a directory: the cluster it stands in, the
/// byte offset of the next slot in that cluster, and how many more links of
/// the chain it may follow before the chain counts as cyclic.
#[derive(Clone, Copy, Debug)]
pub struct Files {
    pub cluster: u32,
    pub offset: u64,
    pub fuel: u64,
}

/// The cursor at the first slot of the directory that starts at `cluster`.
pub open spec fn start_cursor(bpb: BPB, cluster: u32) -> Files {
    Files { cluster, offset: 0, fuel: bpb.total_data_clusters_spec() as u64 }
}

/// The bytes of the cursor's cluster that still hold whole slots.
pub open spec fn slots_left(bpb: BPB, cur: Files) -> int {
    if cur.offset + 32 > bpb.bytes_per_cluster_spec() {
        0
    } else {
        bpb.bytes_per_cluster_spec() - cur.offset
    }
}

/// `next` lies further along the directory than `cur`.
pub open spec fn advances(bpb: BPB, cur: Files, next: Files) -> bool {
    next.fuel < cur.fuel || (next.fuel == cur.fuel && slots_left(bpb, next) < slots_left(bpb, cur))
}

/// Reads slots from the cursor on until a record is complete. `acc` holds
/// the long-name slots met so far, in disk order. The result is the record
/// (or `None` at the end of the directory, or the error that stopped the
/// scan) and the cursor behind the last slot taken.
///
/// A slot that starts with `00` ends the directory; one that starts with
/// `E5` is deleted and drops the slots gathered; one with attribute `0F` is
/// a long-name slot; any other is an 8.3 entry and completes a record.
/// Where the cluster has no whole slot left the scan goes on in the next
/// cluster of the chain, and ends where the chain ends.
#[verifier::opaque]
pub open spec fn scan(image: Seq<u8>, bpb: BPB, cur: Files, acc: Seq<LfnView>) -> (
    Fat32Result<Option<RecordView>>,
    Files,
)
    decreases cur.fuel, slots_left(bpb, cur),
{
    if cur.offset + 32 > bpb.bytes_per_cluster_spec() {
        match fat_link(image, bpb, cur.cluster) {
            Err(e) => (Err(e), cur),
            Ok(None) => (Ok(None), cur),
            Ok(Some(next)) => if cur.fuel == 0 {
                (Err(Fat32Error::FileCorrupt), cur)
            } else {
                scan(
                    image,
                    bpb,
                    Files { cluster: next, offset: 0, fuel: (cur.fuel - 1) as u64 },
                    acc,
                )
            },
        }
    } else {
        match cluster_span(image, bpb, cur.cluster, cur.offset as int, 32) {
            Err(e) => (Err(e), cur),
            Ok(slot) => {
                let next = Files {
                    cluster: cur.cluster,
                    offset: (cur.offset + 32) as u64,
                    fuel: cur.fuel,
                };
                if slot[0] == 0 {
                    (Ok(None), cur)
                } else if slot[0] == 0xE5 {
                    scan(image, bpb, next, Seq::empty())
                } else if slot[11] == 0x0F {
                    scan(image, bpb, next, acc.push(lfn_of(slot)))
                } else {
                    (Ok(Some(record_of(entry_of(slot), acc))), next)
                }
            },
        }
    }
}

/// A scan that gives a record leaves the cursor further along, so a
/// directory is listed in finitely many steps.
pub proof fn lemma_scan_advances(image: Seq<u8>, bpb: BPB, cur: Files, acc: Seq<LfnView>)
    requires
        bpb.valid(),
    ensures
        scan(image, bpb, cur, acc).0 matches Ok(Some(_)) ==> advances(
            bpb,
            cur,
            scan(image, bpb, cur, acc).1,
        ),
    decreases cur.fuel, slots_left(bpb, cur),
{
    reveal(scan);
    bpb.lemma_valid_geometry();
    if cur.offset + 32 > bpb.bytes_per_cluster_spec() {
        match fat_link(image, bpb, cur.cluster) {
            Ok(Some(next)) => {
                if cur.fuel > 0 {
                    lemma_scan_advances(
                        image,
                        bpb,
                        Files { cluster: next, offset: 0, fuel: (cur.fuel - 1) as u64 },
                        acc,
                    );
                }
            },
            _ => {},
        }
    } else {
        match cluster_span(image, bpb, cur.cluster, cur.offset as int, 32) {
            Err(e) => {},
            Ok(slot) => {
                let next = Files {
                    cluster: cur.cluster,
                    offset: (cur.offset + 32) as u64,
                    fuel: cur.fuel,
                };
                if slot[0] == 0 {
                } else if slot[0] == 0xE5 {
                    lemma_scan_advances(image, bpb, next, Seq::empty());
                } else if slot[11] == 0x0F {
                    lemma_scan_advances(image, bpb, next, acc.push(lfn_of(slot)));
                }
            },
        }
    }
}

/// What a scan hands out is a record built from an 8.3 entry that is in
/// use: never the end mark, a deleted slot or a long-name slot.
pub proof fn lemma_scan_emits_entries(image: Seq<u8>, bpb: BPB, cur: Files, acc: Seq<LfnView>)
    ensures
        scan(image, bpb, cur, acc).0 matches Ok(Some(rec)) ==> rec.entry.name[0] != 0
            && rec.entry.name[0] != 0xE5 && rec.entry.attr != 0x0F,
    decreases cur.fuel, slots_left(bpb, cur),
{
    reveal(scan);
    if cur.offset + 32 > bpb.bytes_per_cluster_spec() {
        match fat_link(image, bpb, cur.cluster) {
            Ok(Some(next)) => {
                if cur.fuel > 0 {
                    lemma_scan_emits_entries(
                        image,
                        bpb,
                        Files { cluster: next, offset: 0, fuel: (cur.fuel - 1) as u64 },
                        acc,
                    );
                }
            },
            _ => {},
        }
    } else {
        match cluster_span(image, bpb, cur.cluster, cur.offset as int, 32) {
            Err(e) => {},
            Ok(slot) => {
                let next = Files {
                    cluster: cur.cluster,
                    offset: (cur.offset + 32) as u64,
                    fuel: cur.fuel,
                };
                if slot[0] == 0 {
                } else if slot[0] == 0xE5 {
                    lemma_scan_emits_entries(image, bpb, next, Seq::empty());
                } else if slot[11] == 0x0F {
                    lemma_scan_emits_entries(image, bpb, next, acc.push(lfn_of(slot)));
                }
            },
        }
    }
}

/// The first record from the cursor on that bears `name`; `NotFound` where
/// the directory ends without one.
pub open spec fn find_record(image: Seq<u8>, bpb: BPB, cur: Files, name: Seq<u16>) -> Fat32Result<
    RecordView,
>
    decreases cur.fuel, slots_left(bpb, cur),
{
    let step = scan(image, bpb, cur, Seq::empty());
    match step.0 {
        Err(e) => Err(e),
        Ok(None) => Err(Fat32Error::NotFound),
        Ok(Some(rec)) => if rec.name() == name {
            Ok(rec)
        } else if advances(bpb, cur, step.1) {
            find_record(image, bpb, step.1, name)
        } else {
            Err(Fat32Error::NotFound)
        },
    }
}

/// The records of a directory from the cursor on, in disk order and without
/// volume labels; the error that stops the listing where one does.
pub open spec fn visible_records(image: Seq<u8>, bpb: BPB, cur: Files) -> Fat32Result<
    Seq<RecordView>,
>
    decreases cur.fuel, slots_left(bpb, cur),
{
    let step = scan(image, bpb, cur, Seq::empty());
    match step.0 {
        Err(e) => Err(e),
        Ok(None) => Ok(Seq::empty()),
        Ok(Some(rec)) => if advances(bpb, cur, step.1) {
            match visible_records(image, bpb, step.1) {
                Err(e) => Err(e),
                Ok(rest) => Ok(
                    if rec.is_volume_label() {
                        rest
                    } else {
                        seq![rec] + rest
                    },
                ),
            }
        } else {
            Ok(Seq::empty())
        },
    }
}

/// The views of a list of records.
pub open spec fn record_views(records: Seq<FatDirectory>) -> Seq<RecordView> {
    records.map_values(|d: FatDirectory| d@)
}

impl Files {
    /// A cursor at the start of `directory`.
    pub fn new(driver: &Driver, directory: &FatDirectory) -> (files: Files)
        requires
            driver.wf(),
        ensures
            files == start_cursor(driver.bpb, directory@.cluster_num()),
    {
        proof {
            driver.bpb.lemma_valid_geometry();
        }
        Files {
            cluster: directory.cluster_num(),
            offset: 0,
            fuel: driver.bpb.total_data_clusters(),
        }
    }

    /// The next record of the directory, `None` at its end. Long-name slots
    /// and deleted slots are taken in on the way and never handed out.
    pub fn next(&mut self, driver: &Driver) -> (r: Fat32Result<Option<FatDirectory>>)
        requires
            driver.wf(),
        ensures
            *final(self) == scan(driver.image(), driver.bpb, *old(self), Seq::empty()).1,
            match scan(driver.image(), driver.bpb, *old(self), Seq::empty()).0 {
                Ok(Some(rec)) => r matches Ok(Some(d)) && d@ == rec,
                Ok(None) => r matches Ok(None),
                Err(e) => r matches Err(f) && f == e,
            },
    {
        proof {
            reveal(scan);
            driver.bpb.lemma_valid_geometry();
        }
        let bpc: u64 = driver.bytes_per_cluster();
        let mut lfn_parts: Vec<LFN> = Vec::new();
        let mut buf: Vec<u8> = vec![0u8; FAT32_DIR_SIZE];
        assert(lfn_views(lfn_parts@) =~= Seq::<LfnView>::empty());
        loop
            invariant
                driver.wf(),
                bpc == driver.bpb.bytes_per_cluster_spec(),
                32 <= bpc <= 32768,
                buf@.len() == 32,
                scan(driver.image(), driver.bpb, *old(self), Seq::empty()) == scan(
                    driver.image(),
                    driver.bpb,
                    *self,
                    lfn_views(lfn_parts@),
                ),
            decreases self.fuel, slots_left(driver.bpb, *self),
        {
            proof {
                reveal(scan);
            }
            if self.offset >= bpc || bpc - self.offset < 32 {
                match driver.read_fat(self.cluster) {
                    Err(e) => {
                        return Err(e);
                    },
                    Ok(None) => {
                        return Ok(None);
                    },
                    Ok(Some(next)) => {
                        if self.fuel == 0 {
                            return Err(Fat32Error::FileCorrupt);
                        }
                        self.cluster = next;
                        self.offset = 0;
                        self.fuel -= 1;
                    },
                }
            } else {
                match driver.read_cluster(self.cluster, self.offset, &mut buf) {
                    Err(e) => {
                        return Err(e);
                    },
                    Ok(()) => {
                        if buf[0] == 0 {
                            return Ok(None);
                        }
                        self.offset += 32;
                        if buf[0] == 0xE5 {
                            lfn_parts = Vec::new();
                            assert(lfn_views(lfn_parts@) =~= Seq::<LfnView>::empty());
                        } else if buf[11] == DIR_ATTR_LONG_FILE_NAME {
                            let ghost before = lfn_views(lfn_parts@);
                            match LFN::read(&buf) {
                                Ok(l) => {
                                    lfn_parts.push(l);
                                    assert(lfn_views(lfn_parts@) =~= before.push(lfn_of(buf@)));
                                },
                                Err(e) => {
                                    return Err(e);
                                },
                            }
                        } else {
                            match FatEntry::read(&buf) {
                                Ok(Some(entry)) => {
                                    return Ok(Some(FatDirectory::new(entry, &lfn_parts)));
                                },
                                Ok(None) => {
                                    return Ok(None);
                                },
                                Err(e) => {
                                    return Err(e);
                                },
                            }
                        }
                    },
                }
            }
        }
    }
}

} // verus!
