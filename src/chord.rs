//! A chord of the six-oscillator synth: which oscillators sound, and the
//! offset of each.
use vstd::prelude::*;

use crate::reader::{Reader, Writer};

verus! {

#[derive(PartialEq, Eq, Debug, Clone, Copy, Default)]
pub struct Chord {
    pub mask: u8,
    pub offsets: [u8; 6],
}

pub open spec fn hex_char(d: nat) -> char {
    seq!['0', '1', '2', '3', '4', '5', '6', '7', '8', '9', 'A', 'B', 'C', 'D', 'E', 'F'][d as int]
}

/// Two upper-case hexadecimal digits of `b`.
pub open spec fn hex2(b: u8) -> Seq<char> {
    seq![hex_char((b / 16) as nat), hex_char((b % 16) as nat)]
}

fn hex_str(d: u8) -> (r: &'static str)
    requires
        d < 16,
    ensures
        r@ == seq![hex_char(d as nat)],
{
    proof {
        reveal_strlit("0");
        reveal_strlit("1");
        reveal_strlit("2");
        reveal_strlit("3");
        reveal_strlit("4");
        reveal_strlit("5");
        reveal_strlit("6");
        reveal_strlit("7");
        reveal_strlit("8");
        reveal_strlit("9");
        reveal_strlit("A");
        reveal_strlit("B");
        reveal_strlit("C");
        reveal_strlit("D");
        reveal_strlit("E");
        reveal_strlit("F");
    }
    let r = match d {
        0 => "0",
        1 => "1",
        2 => "2",
        3 => "3",
        4 => "4",
        5 => "5",
        6 => "6",
        7 => "7",
        8 => "8",
        9 => "9",
        10 => "A",
        11 => "B",
        12 => "C",
        13 => "D",
        14 => "E",
        _ => "F",
    };
    assert(r@ =~= seq![hex_char(d as nat)]);
    r
}

impl Chord {
    /// Reads the mask, then the six offsets.
    pub fn read(reader: &mut Reader) -> (r: Self)
        requires
            old(reader).remaining() >= 7,
        ensures
            r.mask == old(reader).ahead(0),
            forall|i: int| 0 <= i < 6 ==> #[trigger] r.offsets@[i] == old(reader).ahead(1 + i),
            final(reader).advanced(old(reader), 7),
    {
        let mask = reader.read();
        let o0 = reader.read();
        let o1 = reader.read();
        let o2 = reader.read();
        let o3 = reader.read();
        let o4 = reader.read();
        let o5 = reader.read();
        let offsets = [o0, o1, o2, o3, o4, o5];
        assert(offsets@[0] == o0 && offsets@[1] == o1 && offsets@[2] == o2);
        assert(offsets@[3] == o3 && offsets@[4] == o4 && offsets@[5] == o5);
        Self { mask, offsets }
    }

    /// Writes the mask, then the six offsets.
    pub fn write(&self, w: &mut Writer)
        ensures
            final(w).buffer@ == old(w).buffer@ + seq![self.mask] + self.offsets@,
    {
        w.write(self.mask);
        let mut i: usize = 0;
        while i < 6
            invariant
                i <= 6,
                w.buffer@ == old(w).buffer@ + seq![self.mask] + self.offsets@.subrange(0, i as int),
            decreases 6 - i,
        {
            w.write(self.offsets[i]);
            i += 1;
            assert(w.buffer@ =~= old(w).buffer@ + seq![self.mask] + self.offsets@.subrange(0, i as int));
        }
        assert(self.offsets@.subrange(0, 6) =~= self.offsets@);
    }

    /// Oscillator `osc` sounds: its bit of the mask is set.
    pub fn is_osc_on(&self, osc: usize) -> (r: bool)
        requires
            osc < 8,
        ensures
            r == ((self.mask >> (osc as u8)) & 1u8 == 1u8),
    {
        let m = self.mask;
        let o = osc as u8;
        let r = (m & (1u8 << o)) != 0;
        assert(((m & (1u8 << o)) != 0) == ((m >> o) & 1u8 == 1u8)) by (bit_vector)
            requires
                o < 8,
        ;
        r
    }

    /// The offset of oscillator `osc` in two hexadecimal digits, or `--`
    /// when it does not sound.
    pub fn offset_str(&self, osc: usize) -> (r: String)
        requires
            osc < 6,
        ensures
            r@ == if (self.mask >> (osc as u8)) & 1u8 == 1u8 {
                hex2(self.offsets@[osc as int])
            } else {
                seq!['-', '-']
            },
    {
        if self.is_osc_on(osc) {
            let b = self.offsets[osc];
            let mut s = String::new();
            s.append(hex_str(b / 16));
            s.append(hex_str(b % 16));
            assert(s@ =~= hex2(b));
            s
        } else {
            proof {
                reveal_strlit("--");
            }
            let s = "--".to_owned();
            assert(s@ =~= seq!['-', '-']);
            s
        }
    }
}

} // verus!
