use vstd::prelude::*;

verus! {

/// A single-byte text encoding: the character that each of the 256 byte
/// values stands for. Game data uses CP866; the caller supplies the table.
pub struct Codepage {
    table: Vec<char>,
}

/// Characters that `bytes` stand for under the table `cp`.
pub open spec fn decode_text(cp: Seq<char>, bytes: Seq<u8>) -> Seq<char> {
    bytes.map_values(|b: u8| cp[b as int])
}

/// Relies on `String::push`: the character is appended at the end.
#[verifier::external_body]
pub(crate) fn push_char(s: &mut String, c: char)
    ensures
        final(s)@ == old(s)@.push(c),
{
    s.push(c)
}

impl View for Codepage {
    type V = Seq<char>;

    closed spec fn view(&self) -> Seq<char> {
        self.table@
    }
}

impl Codepage {
    #[verifier::type_invariant]
    spec fn full_table(&self) -> bool {
        self.table@.len() == 256
    }

    /// Makes a codepage from the characters of byte values 0 to 255, in
    /// order; `None` unless exactly 256 characters are given.
    pub fn new(table: Vec<char>) -> (r: Option<Codepage>)
        ensures
            r is Some <==> table@.len() == 256,
            r matches Some(cp) ==> cp@ == table@,
    {
        if table.len() == 256 {
            Some(Codepage { table })
        } else {
            None
        }
    }

    /// The character that byte `b` stands for.
    pub fn decode_byte(&self, b: u8) -> (c: char)
        ensures
            c == self@[b as int],
    {
        proof {
            use_type_invariant(self);
        }
        self.table[b as usize]
    }

    /// Decodes `bytes[from..to]`, one character per byte.
    pub fn decode(&self, bytes: &[u8], from: usize, to: usize) -> (r: String)
        requires
            from <= to <= bytes@.len(),
        ensures
            r@ == decode_text(self@, bytes@.subrange(from as int, to as int)),
    {
        let mut s = String::new();
        let mut i: usize = from;
        while i < to
            invariant
                from <= i <= to <= bytes@.len(),
                s@ == decode_text(self@, bytes@.subrange(from as int, i as int)),
            decreases to - i,
        {
            let c = self.decode_byte(bytes[i]);
            push_char(&mut s, c);
            proof {
                assert(bytes@.subrange(from as int, i + 1) == bytes@.subrange(from as int, i as int).push(bytes@[i as int]));
            }
            i = i + 1;
            assert(s@ =~= decode_text(self@, bytes@.subrange(from as int, i as int)));
        }
        s
    }
}

} // verus!
