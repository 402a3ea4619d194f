use vstd::prelude::*;
use vstd::wrapping::u64_specs::wrapping_mul;
use crate::bitboard::Bitboard;

verus! {

/// The constants of one fancy-magic lookup: `((blockers * magic) >> shift) + offset`
/// indexes the shared attack table of one piece type.
#[derive(Clone, Copy, Debug, PartialEq, Eq, Structural)]
pub struct MagicNumber {
    pub magic: u64,
    pub shift: u8,
    pub offset: usize,
}

pub const ROOK_ATTACK_TABLE_SIZE: usize = 102400;
pub const BISHOP_ATTACK_TABLE_SIZE: usize = 5248;

/// Number of table slots one square uses: 2^(64 - shift).
pub open spec fn slot_count(shift: u8) -> nat {
    if shift == 52 {
        4096
    } else if shift == 53 {
        2048
    } else if shift == 54 {
        1024
    } else if shift == 55 {
        512
    } else if shift == 56 {
        256
    } else if shift == 57 {
        128
    } else if shift == 58 {
        64
    } else {
        32
    }
}

pub open spec fn spec_magic_index(m: MagicNumber, blockers: u64) -> nat {
    (wrapping_mul(m.magic, blockers) >> (m.shift as u64)) as nat + m.offset as nat
}

/// A magic whose slots fit in a table of `size` entries.
pub open spec fn magic_fits(m: MagicNumber, size: nat) -> bool {
    52 <= m.shift <= 59 && m.offset + slot_count(m.shift) <= size
}

pub proof fn lemma_shift_bound(h: u64, shift: u8)
    requires
        52 <= shift <= 59,
    ensures
        (h >> (shift as u64)) < slot_count(shift),
{
    let s = shift as u64;
    assert((h >> s) < (if s == 52 {
        4096u64
    } else if s == 53 {
        2048u64
    } else if s == 54 {
        1024u64
    } else if s == 55 {
        512u64
    } else if s == 56 {
        256u64
    } else if s == 57 {
        128u64
    } else if s == 58 {
        64u64
    } else {
        32u64
    })) by (bit_vector)
        requires
            52 <= s <= 59,
    ;
}

impl MagicNumber {
    pub fn get_magic_index(&self, blockers: Bitboard) -> (r: usize)
        requires
            52 <= self.shift <= 59,
            self.offset + 4096 <= usize::MAX,
        ensures
            r == spec_magic_index(*self, blockers.0),
            r < self.offset + slot_count(self.shift),
    {
        let hash = self.magic.wrapping_mul(blockers.0);
        proof {
            lemma_shift_bound(hash, self.shift);
        }
        let index = (hash >> (self.shift as u64)) as usize;
        index + self.offset
    }
}

/// The rook magic of a square.
pub fn rook_magic(square: usize) -> (r: MagicNumber)
    requires
        square < 64,
    ensures
        magic_fits(r, ROOK_ATTACK_TABLE_SIZE as nat),
{
    match square {
        0 => MagicNumber { magic: 0x0080004001802010, shift: 52, offset: 0 },
        1 => MagicNumber { magic: 0x0040100840012000, shift: 53, offset: 4096 },
        2 => MagicNumber { magic: 0x0080182000809000, shift: 53, offset: 6144 },
        3 => MagicNumber { magic: 0x0080100005080080, shift: 53, offset: 8192 },
        4 => MagicNumber { magic: 0x0200100420020008, shift: 53, offset: 10240 },
        5 => MagicNumber { magic: 0x0100050008140002, shift: 53, offset: 12288 },
        6 => MagicNumber { magic: 0x1880108006000100, shift: 53, offset: 14336 },
        7 => MagicNumber { magic: 0x8200060421028444, shift: 52, offset: 16384 },
        8 => MagicNumber { magic: 0x89048000C0028C61, shift: 53, offset: 20480 },
        9 => MagicNumber { magic: 0x0452804000200080, shift: 54, offset: 22528 },
        10 => MagicNumber { magic: 0x0489004020010011, shift: 54, offset: 23552 },
        11 => MagicNumber { magic: 0x8402000820120044, shift: 54, offset: 24576 },
        12 => MagicNumber { magic: 0x8402000820120044, shift: 54, offset: 25600 },
        13 => MagicNumber { magic: 0x10220010080A0005, shift: 54, offset: 26624 },
        14 => MagicNumber { magic: 0x0001002100040200, shift: 54, offset: 27648 },
        15 => MagicNumber { magic: 0x0002000102441082, shift: 53, offset: 28672 },
        16 => MagicNumber { magic: 0x0000848008400062, shift: 53, offset: 30720 },
        17 => MagicNumber { magic: 0x0800404010002000, shift: 54, offset: 32768 },
        18 => MagicNumber { magic: 0x00A0010020104108, shift: 54, offset: 33792 },
        19 => MagicNumber { magic: 0x0008808018005000, shift: 54, offset: 34816 },
        20 => MagicNumber { magic: 0x008400800C080080, shift: 54, offset: 35840 },
        21 => MagicNumber { magic: 0x0204008022001480, shift: 54, offset: 36864 },
        22 => MagicNumber { magic: 0x0C040400082D8210, shift: 54, offset: 37888 },
        23 => MagicNumber { magic: 0x0059020000804405, shift: 53, offset: 38912 },
        24 => MagicNumber { magic: 0x0080400080008060, shift: 53, offset: 40960 },
        25 => MagicNumber { magic: 0x80300044400C2000, shift: 54, offset: 43008 },
        26 => MagicNumber { magic: 0x802000A080100080, shift: 54, offset: 44032 },
        27 => MagicNumber { magic: 0x1002500180080280, shift: 54, offset: 45056 },
        28 => MagicNumber { magic: 0x02A0080080800C00, shift: 54, offset: 46080 },
        29 => MagicNumber { magic: 0x4804420080800400, shift: 54, offset: 47104 },
        30 => MagicNumber { magic: 0x4603410400080210, shift: 54, offset: 48128 },
        31 => MagicNumber { magic: 0x0808004200010084, shift: 53, offset: 49152 },
        32 => MagicNumber { magic: 0x0080082000400A40, shift: 53, offset: 51200 },
        33 => MagicNumber { magic: 0x0000884002802000, shift: 54, offset: 53248 },
        34 => MagicNumber { magic: 0x20A0002080801000, shift: 54, offset: 54272 },
        35 => MagicNumber { magic: 0x0030801000802800, shift: 54, offset: 55296 },
        36 => MagicNumber { magic: 0x02A0080080800C00, shift: 54, offset: 56320 },
        37 => MagicNumber { magic: 0x0002800401800200, shift: 54, offset: 57344 },
        38 => MagicNumber { magic: 0x088008810400500E, shift: 54, offset: 58368 },
        39 => MagicNumber { magic: 0x40C000442A000091, shift: 53, offset: 59392 },
        40 => MagicNumber { magic: 0x0884208040008000, shift: 53, offset: 61440 },
        41 => MagicNumber { magic: 0x2002008310420020, shift: 54, offset: 63488 },
        42 => MagicNumber { magic: 0x0000442001030015, shift: 54, offset: 64512 },
        43 => MagicNumber { magic: 0x000A00401222000A, shift: 54, offset: 65536 },
        44 => MagicNumber { magic: 0x8000040008008080, shift: 54, offset: 66560 },
        45 => MagicNumber { magic: 0x10220010080A0005, shift: 54, offset: 67584 },
        46 => MagicNumber { magic: 0x0080D00801040042, shift: 54, offset: 68608 },
        47 => MagicNumber { magic: 0x40051084005A0001, shift: 53, offset: 69632 },
        48 => MagicNumber { magic: 0x084000801821C580, shift: 53, offset: 71680 },
        49 => MagicNumber { magic: 0x0452804000200080, shift: 54, offset: 73728 },
        50 => MagicNumber { magic: 0x0000A00040150100, shift: 54, offset: 74752 },
        51 => MagicNumber { magic: 0x1002500180080280, shift: 54, offset: 75776 },
        52 => MagicNumber { magic: 0x0202808802040080, shift: 54, offset: 76800 },
        53 => MagicNumber { magic: 0x8002000904301200, shift: 54, offset: 77824 },
        54 => MagicNumber { magic: 0x0000020508107400, shift: 54, offset: 78848 },
        55 => MagicNumber { magic: 0x1844009401015200, shift: 53, offset: 79872 },
        56 => MagicNumber { magic: 0x1020245502408001, shift: 52, offset: 81920 },
        57 => MagicNumber { magic: 0x0002418023001202, shift: 53, offset: 86016 },
        58 => MagicNumber { magic: 0x8800100941A08202, shift: 53, offset: 88064 },
        59 => MagicNumber { magic: 0x0002300009002005, shift: 53, offset: 90112 },
        60 => MagicNumber { magic: 0x2011001008000403, shift: 53, offset: 92160 },
        61 => MagicNumber { magic: 0x22C1000204000801, shift: 53, offset: 94208 },
        62 => MagicNumber { magic: 0x80004486480B1004, shift: 53, offset: 96256 },
        63 => MagicNumber { magic: 0x0020408224004102, shift: 52, offset: 98304 },
        _ => MagicNumber { magic: 0, shift: 52, offset: 0 },
    }
}

/// The bishop magic of a square.
pub fn bishop_magic(square: usize) -> (r: MagicNumber)
    requires
        square < 64,
    ensures
        magic_fits(r, BISHOP_ATTACK_TABLE_SIZE as nat),
{
    match square {
        0 => MagicNumber { magic: 0x0A18211014004080, shift: 58, offset: 0 },
        1 => MagicNumber { magic: 0x0260488503082406, shift: 59, offset: 64 },
        2 => MagicNumber { magic: 0x04100C004C404000, shift: 59, offset: 96 },
        3 => MagicNumber { magic: 0x80840C0080000000, shift: 59, offset: 128 },
        4 => MagicNumber { magic: 0x0004052002418089, shift: 59, offset: 160 },
        5 => MagicNumber { magic: 0x18408884400008A0, shift: 59, offset: 192 },
        6 => MagicNumber { magic: 0x1400460610404000, shift: 59, offset: 224 },
        7 => MagicNumber { magic: 0x092104A484044000, shift: 58, offset: 256 },
        8 => MagicNumber { magic: 0x4210103090014044, shift: 59, offset: 320 },
        9 => MagicNumber { magic: 0x0608092202860201, shift: 59, offset: 352 },
        10 => MagicNumber { magic: 0x0000212904009000, shift: 59, offset: 384 },
        11 => MagicNumber { magic: 0x0200082080620948, shift: 59, offset: 416 },
        12 => MagicNumber { magic: 0x1400460610404000, shift: 59, offset: 448 },
        13 => MagicNumber { magic: 0x0010820910080002, shift: 59, offset: 480 },
        14 => MagicNumber { magic: 0x4052008C14024143, shift: 59, offset: 512 },
        15 => MagicNumber { magic: 0x0204004202012000, shift: 59, offset: 544 },
        16 => MagicNumber { magic: 0x8048021420082200, shift: 59, offset: 576 },
        17 => MagicNumber { magic: 0x02100408222800C0, shift: 59, offset: 608 },
        18 => MagicNumber { magic: 0x0410005200881100, shift: 57, offset: 640 },
        19 => MagicNumber { magic: 0x0006002020214200, shift: 57, offset: 768 },
        20 => MagicNumber { magic: 0x0011000820080040, shift: 57, offset: 896 },
        21 => MagicNumber { magic: 0x8002000109100210, shift: 57, offset: 1024 },
        22 => MagicNumber { magic: 0x1002284082100200, shift: 59, offset: 1152 },
        23 => MagicNumber { magic: 0x00020008410C4107, shift: 59, offset: 1184 },
        24 => MagicNumber { magic: 0x1010880540883B12, shift: 59, offset: 1216 },
        25 => MagicNumber { magic: 0x0408208408650502, shift: 59, offset: 1248 },
        26 => MagicNumber { magic: 0x1900818010040080, shift: 57, offset: 1280 },
        27 => MagicNumber { magic: 0x10A0080001004008, shift: 55, offset: 1408 },
        28 => MagicNumber { magic: 0x8029840000802010, shift: 55, offset: 1920 },
        29 => MagicNumber { magic: 0x0003010003300800, shift: 57, offset: 2432 },
        30 => MagicNumber { magic: 0x8104006D84020600, shift: 59, offset: 2560 },
        31 => MagicNumber { magic: 0x080208A008C40221, shift: 59, offset: 2592 },
        32 => MagicNumber { magic: 0x4002200400608940, shift: 59, offset: 2624 },
        33 => MagicNumber { magic: 0x0802122000100100, shift: 59, offset: 2656 },
        34 => MagicNumber { magic: 0x5004004800040520, shift: 57, offset: 2688 },
        35 => MagicNumber { magic: 0x4009020080080080, shift: 55, offset: 2816 },
        36 => MagicNumber { magic: 0x800E108400020120, shift: 55, offset: 3328 },
        37 => MagicNumber { magic: 0x6201900500108188, shift: 57, offset: 3840 },
        38 => MagicNumber { magic: 0x0024285601038080, shift: 59, offset: 3968 },
        39 => MagicNumber { magic: 0x0024285601038080, shift: 59, offset: 4000 },
        40 => MagicNumber { magic: 0x0022025040001400, shift: 59, offset: 4032 },
        41 => MagicNumber { magic: 0x400401440A101000, shift: 59, offset: 4064 },
        42 => MagicNumber { magic: 0x0220202428081004, shift: 57, offset: 4096 },
        43 => MagicNumber { magic: 0x000202C010408208, shift: 57, offset: 4224 },
        44 => MagicNumber { magic: 0x0400202009010380, shift: 57, offset: 4352 },
        45 => MagicNumber { magic: 0x2081025482000100, shift: 57, offset: 4480 },
        46 => MagicNumber { magic: 0x00085000C0800600, shift: 59, offset: 4608 },
        47 => MagicNumber { magic: 0x0010110200801020, shift: 59, offset: 4640 },
        48 => MagicNumber { magic: 0x1400460610404000, shift: 59, offset: 4672 },
        49 => MagicNumber { magic: 0x0005005802080000, shift: 59, offset: 4704 },
        50 => MagicNumber { magic: 0xA020002308220010, shift: 59, offset: 4736 },
        51 => MagicNumber { magic: 0x092104A484044000, shift: 59, offset: 4768 },
        52 => MagicNumber { magic: 0x2012149022020008, shift: 59, offset: 4800 },
        53 => MagicNumber { magic: 0x2012149022020008, shift: 59, offset: 4832 },
        54 => MagicNumber { magic: 0x40A00250020088A0, shift: 59, offset: 4864 },
        55 => MagicNumber { magic: 0x0260488503082406, shift: 59, offset: 4896 },
        56 => MagicNumber { magic: 0x092104A484044000, shift: 58, offset: 4928 },
        57 => MagicNumber { magic: 0x0204004202012000, shift: 59, offset: 4992 },
        58 => MagicNumber { magic: 0x0080840142080448, shift: 59, offset: 5024 },
        59 => MagicNumber { magic: 0x0020081100420209, shift: 59, offset: 5056 },
        60 => MagicNumber { magic: 0x0001400110020209, shift: 59, offset: 5088 },
        61 => MagicNumber { magic: 0x490400A4200C2102, shift: 59, offset: 5120 },
        62 => MagicNumber { magic: 0x4210103090014044, shift: 59, offset: 5152 },
        63 => MagicNumber { magic: 0x0A18211014004080, shift: 58, offset: 5184 },
        _ => MagicNumber { magic: 0, shift: 59, offset: 0 },
    }
}

} // verus!
