//! The catalog of timepatch codes and the bit layout each one selects.

use vstd::prelude::*;
use crate::error::DecodeError;

verus! {

/// Bits of a record that every layout gives to the edge flag.
pub const EDGE_BITS: u8 = 1;

/// Bits of a record that every layout gives to the channel number.
pub const CHANNEL_BITS: u8 = 3;

/// One of the fourteen record layouts of the instrument.
#[derive(Clone, Copy, Debug, PartialEq, Eq, Structural)]
pub enum Timepatch {
    Tp0,
    Tp5,
    Tp1,
    Tp1a,
    Tp2a,
    Tp22,
    Tp32,
    Tp2,
    Tp5b,
    TpDb,
    Tpf3,
    Tp43,
    Tpc3,
    Tp3,
}

/// The widths, in bits, of the four fields of a record that vary between
/// layouts. The edge flag and the channel number always take four more.
#[derive(Clone, Copy, Debug, PartialEq, Eq, Structural)]
pub struct TimepatchBits {
    pub lost_bits: u8,
    pub tag_bits: u8,
    pub sweep_bits: u8,
    pub time_bits: u8,
}

/// The code that the instrument writes for a layout.
pub open spec fn code_of(tp: Timepatch) -> Seq<char> {
    match tp {
        Timepatch::Tp0 => seq!['0'],
        Timepatch::Tp5 => seq!['5'],
        Timepatch::Tp1 => seq!['1'],
        Timepatch::Tp1a => seq!['1', 'a'],
        Timepatch::Tp2a => seq!['2', 'a'],
        Timepatch::Tp22 => seq!['2', '2'],
        Timepatch::Tp32 => seq!['3', '2'],
        Timepatch::Tp2 => seq!['2'],
        Timepatch::Tp5b => seq!['5', 'b'],
        Timepatch::TpDb => seq!['D', 'b'],
        Timepatch::Tpf3 => seq!['f', '3'],
        Timepatch::Tp43 => seq!['4', '3'],
        Timepatch::Tpc3 => seq!['c', '3'],
        Timepatch::Tp3 => seq!['3'],
    }
}

/// The layout that a code names, if it names one.
pub open spec fn timepatch_of(code: Seq<char>) -> Option<Timepatch> {
    if code == code_of(Timepatch::Tp0) {
        Some(Timepatch::Tp0)
    } else if code == code_of(Timepatch::Tp5) {
        Some(Timepatch::Tp5)
    } else if code == code_of(Timepatch::Tp1) {
        Some(Timepatch::Tp1)
    } else if code == code_of(Timepatch::Tp1a) {
        Some(Timepatch::Tp1a)
    } else if code == code_of(Timepatch::Tp2a) {
        Some(Timepatch::Tp2a)
    } else if code == code_of(Timepatch::Tp22) {
        Some(Timepatch::Tp22)
    } else if code == code_of(Timepatch::Tp32) {
        Some(Timepatch::Tp32)
    } else if code == code_of(Timepatch::Tp2) {
        Some(Timepatch::Tp2)
    } else if code == code_of(Timepatch::Tp5b) {
        Some(Timepatch::Tp5b)
    } else if code == code_of(Timepatch::TpDb) {
        Some(Timepatch::TpDb)
    } else if code == code_of(Timepatch::Tpf3) {
        Some(Timepatch::Tpf3)
    } else if code == code_of(Timepatch::Tp43) {
        Some(Timepatch::Tp43)
    } else if code == code_of(Timepatch::Tpc3) {
        Some(Timepatch::Tpc3)
    } else if code == code_of(Timepatch::Tp3) {
        Some(Timepatch::Tp3)
    } else {
        None
    }
}

/// The field widths of a layout, as the instrument's format table gives them.
pub open spec fn bits_of(tp: Timepatch) -> TimepatchBits {
    match tp {
        Timepatch::Tp0 => TimepatchBits { lost_bits: 0, tag_bits: 0, sweep_bits: 0, time_bits: 12 },
        Timepatch::Tp5 => TimepatchBits { lost_bits: 0, tag_bits: 0, sweep_bits: 8, time_bits: 20 },
        Timepatch::Tp1 => TimepatchBits { lost_bits: 0, tag_bits: 0, sweep_bits: 0, time_bits: 28 },
        Timepatch::Tp1a => TimepatchBits { lost_bits: 0, tag_bits: 0, sweep_bits: 16, time_bits: 28 },
        Timepatch::Tp2a => TimepatchBits { lost_bits: 0, tag_bits: 8, sweep_bits: 8, time_bits: 28 },
        Timepatch::Tp22 => TimepatchBits { lost_bits: 0, tag_bits: 8, sweep_bits: 0, time_bits: 36 },
        Timepatch::Tp32 => TimepatchBits { lost_bits: 1, tag_bits: 0, sweep_bits: 7, time_bits: 36 },
        Timepatch::Tp2 => TimepatchBits { lost_bits: 0, tag_bits: 0, sweep_bits: 0, time_bits: 44 },
        Timepatch::Tp5b => TimepatchBits { lost_bits: 1, tag_bits: 15, sweep_bits: 16, time_bits: 28 },
        Timepatch::TpDb => TimepatchBits { lost_bits: 0, tag_bits: 0, sweep_bits: 16, time_bits: 28 },
        Timepatch::Tpf3 => TimepatchBits { lost_bits: 1, tag_bits: 16, sweep_bits: 7, time_bits: 36 },
        Timepatch::Tp43 => TimepatchBits { lost_bits: 1, tag_bits: 15, sweep_bits: 0, time_bits: 44 },
        Timepatch::Tpc3 => TimepatchBits { lost_bits: 0, tag_bits: 16, sweep_bits: 0, time_bits: 44 },
        Timepatch::Tp3 => TimepatchBits { lost_bits: 1, tag_bits: 5, sweep_bits: 0, time_bits: 54 },
    }
}

impl TimepatchBits {
    /// All the bits of one record: the four fields, the edge flag and the
    /// channel number.
    pub open spec fn record_bits(self) -> nat {
        (self.lost_bits + self.tag_bits + self.sweep_bits + self.time_bits + EDGE_BITS
            + CHANNEL_BITS) as nat
    }

    /// A layout that a record of two, four, six or eight bytes can hold:
    /// the lost flag is one bit at most, tag and sweep fit in sixteen bits
    /// each, there is a time field, and the fields fill whole bytes.
    pub open spec fn wf(self) -> bool {
        &&& self.lost_bits <= 1
        &&& self.tag_bits <= 16
        &&& self.sweep_bits <= 16
        &&& self.time_bits >= 1
        &&& (self.record_bits() == 16 || self.record_bits() == 32 || self.record_bits() == 48
            || self.record_bits() == 64)
    }

    /// The bytes that one record takes.
    pub open spec fn spec_record_bytes(self) -> nat {
        self.record_bits() / 8
    }

    /// Whether records of this layout count sweeps.
    pub open spec fn has_sweep(self) -> bool {
        self.sweep_bits > 0
    }

    /// The field widths of the layout that `tp` names.
    pub fn new(tp: &str) -> (r: Result<TimepatchBits, DecodeError>)
        ensures
            match timepatch_of(tp@) {
                Some(t) => r == Ok::<TimepatchBits, DecodeError>(bits_of(t)),
                None => r matches Err(DecodeError::UnknownTimepatch(code)) && code@ == tp@,
            },
    {
        match Timepatch::new(tp) {
            Ok(t) => Ok(t.bits()),
            Err(e) => Err(e),
        }
    }

    /// The bytes that one record takes: the sum of all field widths, edge
    /// and channel included, in whole bytes.
    pub fn record_bytes(&self) -> (n: usize)
        requires
            self.wf(),
        ensures
            n == self.spec_record_bytes(),
            n * 8 == self.record_bits(),
            n == 2 || n == 4 || n == 6 || n == 8,
    {
        let fields: usize = self.lost_bits as usize + self.tag_bits as usize
            + self.sweep_bits as usize + self.time_bits as usize;
        (fields + EDGE_BITS as usize + CHANNEL_BITS as usize) / 8
    }

    /// The widths in the order lost, tag, sweep, time.
    pub fn to_array(&self) -> (a: [u8; 4])
        ensures
            a@ == seq![self.lost_bits, self.tag_bits, self.sweep_bits, self.time_bits],
    {
        let a: [u8; 4] = [self.lost_bits, self.tag_bits, self.sweep_bits, self.time_bits];
        assert(a@ =~= seq![self.lost_bits, self.tag_bits, self.sweep_bits, self.time_bits]);
        a
    }
}

impl Timepatch {
    /// The layout that the code `tp` names.
    pub fn new(tp: &str) -> (r: Result<Timepatch, DecodeError>)
        ensures
            match timepatch_of(tp@) {
                Some(t) => r == Ok::<Timepatch, DecodeError>(t),
                None => r matches Err(DecodeError::UnknownTimepatch(code)) && code@ == tp@,
            },
    {
        let len: usize = tp.unicode_len();
        let found: Option<Timepatch> = if len == 1 {
            let c: char = tp.get_char(0);
            assert(tp@ =~= seq![c]);
            if c == '0' {
                Some(Timepatch::Tp0)
            } else if c == '5' {
                Some(Timepatch::Tp5)
            } else if c == '1' {
                Some(Timepatch::Tp1)
            } else if c == '2' {
                Some(Timepatch::Tp2)
            } else if c == '3' {
                Some(Timepatch::Tp3)
            } else {
                None
            }
        } else if len == 2 {
            let c: char = tp.get_char(0);
            let d: char = tp.get_char(1);
            assert(tp@ =~= seq![c, d]);
            if c == '1' && d == 'a' {
                Some(Timepatch::Tp1a)
            } else if c == '2' && d == 'a' {
                Some(Timepatch::Tp2a)
            } else if c == '2' && d == '2' {
                Some(Timepatch::Tp22)
            } else if c == '3' && d == '2' {
                Some(Timepatch::Tp32)
            } else if c == '5' && d == 'b' {
                Some(Timepatch::Tp5b)
            } else if c == 'D' && d == 'b' {
                Some(Timepatch::TpDb)
            } else if c == 'f' && d == '3' {
                Some(Timepatch::Tpf3)
            } else if c == '4' && d == '3' {
                Some(Timepatch::Tp43)
            } else if c == 'c' && d == '3' {
                Some(Timepatch::Tpc3)
            } else {
                None
            }
        } else {
            None
        };
        proof {
            lemma_codes(tp@);
        }
        match found {
            Some(t) => Ok(t),
            None => Err(DecodeError::UnknownTimepatch(tp.to_owned())),
        }
    }

    /// The field widths of this layout.
    pub fn bits(self) -> (b: TimepatchBits)
        ensures
            b == bits_of(self),
            b.wf(),
    {
        match self {
            Timepatch::Tp0 => TimepatchBits { lost_bits: 0, tag_bits: 0, sweep_bits: 0, time_bits: 12 },
            Timepatch::Tp5 => TimepatchBits { lost_bits: 0, tag_bits: 0, sweep_bits: 8, time_bits: 20 },
            Timepatch::Tp1 => TimepatchBits { lost_bits: 0, tag_bits: 0, sweep_bits: 0, time_bits: 28 },
            Timepatch::Tp1a => TimepatchBits { lost_bits: 0, tag_bits: 0, sweep_bits: 16, time_bits: 28 },
            Timepatch::Tp2a => TimepatchBits { lost_bits: 0, tag_bits: 8, sweep_bits: 8, time_bits: 28 },
            Timepatch::Tp22 => TimepatchBits { lost_bits: 0, tag_bits: 8, sweep_bits: 0, time_bits: 36 },
            Timepatch::Tp32 => TimepatchBits { lost_bits: 1, tag_bits: 0, sweep_bits: 7, time_bits: 36 },
            Timepatch::Tp2 => TimepatchBits { lost_bits: 0, tag_bits: 0, sweep_bits: 0, time_bits: 44 },
            Timepatch::Tp5b => TimepatchBits { lost_bits: 1, tag_bits: 15, sweep_bits: 16, time_bits: 28 },
            Timepatch::TpDb => TimepatchBits { lost_bits: 0, tag_bits: 0, sweep_bits: 16, time_bits: 28 },
            Timepatch::Tpf3 => TimepatchBits { lost_bits: 1, tag_bits: 16, sweep_bits: 7, time_bits: 36 },
            Timepatch::Tp43 => TimepatchBits { lost_bits: 1, tag_bits: 15, sweep_bits: 0, time_bits: 44 },
            Timepatch::Tpc3 => TimepatchBits { lost_bits: 0, tag_bits: 16, sweep_bits: 0, time_bits: 44 },
            Timepatch::Tp3 => TimepatchBits { lost_bits: 1, tag_bits: 5, sweep_bits: 0, time_bits: 54 },
        }
    }
}

/// What the first characters of a code say about the layout it names.
pub proof fn lemma_codes(code: Seq<char>)
    ensures
        code.len() != 1 && code.len() != 2 ==> timepatch_of(code) is None,
        code.len() == 1 ==> timepatch_of(code) == (if code[0] == '0' {
            Some(Timepatch::Tp0)
        } else if code[0] == '5' {
            Some(Timepatch::Tp5)
        } else if code[0] == '1' {
            Some(Timepatch::Tp1)
        } else if code[0] == '2' {
            Some(Timepatch::Tp2)
        } else if code[0] == '3' {
            Some(Timepatch::Tp3)
        } else {
            None::<Timepatch>
        }),
        code.len() == 2 ==> timepatch_of(code) == (if code[0] == '1' && code[1] == 'a' {
            Some(Timepatch::Tp1a)
        } else if code[0] == '2' && code[1] == 'a' {
            Some(Timepatch::Tp2a)
        } else if code[0] == '2' && code[1] == '2' {
            Some(Timepatch::Tp22)
        } else if code[0] == '3' && code[1] == '2' {
            Some(Timepatch::Tp32)
        } else if code[0] == '5' && code[1] == 'b' {
            Some(Timepatch::Tp5b)
        } else if code[0] == 'D' && code[1] == 'b' {
            Some(Timepatch::TpDb)
        } else if code[0] == 'f' && code[1] == '3' {
            Some(Timepatch::Tpf3)
        } else if code[0] == '4' && code[1] == '3' {
            Some(Timepatch::Tp43)
        } else if code[0] == 'c' && code[1] == '3' {
            Some(Timepatch::Tpc3)
        } else {
            None::<Timepatch>
        }),
{
    if code.len() == 1 {
        assert(code =~= seq![code[0]]);
    } else if code.len() == 2 {
        assert(code =~= seq![code[0], code[1]]);
    }
}

/// Every layout of the catalog fills its record exactly: the four field
/// widths and the four fixed bits add up to eight times the record's bytes,
/// and the record is two, four, six or eight bytes long.
pub proof fn lemma_catalog_fills_record(tp: Timepatch)
    ensures
        bits_of(tp).wf(),
        bits_of(tp).lost_bits + bits_of(tp).tag_bits + bits_of(tp).sweep_bits + bits_of(
            tp,
        ).time_bits + 4 == bits_of(tp).spec_record_bytes() * 8,
{
}

/// A code names at most one layout, and each layout is named by its code.
pub proof fn lemma_code_round_trip(tp: Timepatch)
    ensures
        timepatch_of(code_of(tp)) == Some(tp),
{
    let code = code_of(tp);
    lemma_codes(code);
}

} // verus!
