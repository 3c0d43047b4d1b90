use vstd::prelude::*;

use crate::errors::ErrorKind;
use crate::strutil::copy_bytes;

verus! {

/// Number of raw bytes in a node identity (a public key).
pub const NODE_ID_LEN: usize = 32;

/// Number of leading hex characters used by the short display form.
pub const NODE_ID_SHORT_LEN: usize = 10;

/// The lowercase hex character for a value below sixteen.
pub open spec fn hex_digit(n: u8) -> char {
    if n == 0 {
        '0'
    } else if n == 1 {
        '1'
    } else if n == 2 {
        '2'
    } else if n == 3 {
        '3'
    } else if n == 4 {
        '4'
    } else if n == 5 {
        '5'
    } else if n == 6 {
        '6'
    } else if n == 7 {
        '7'
    } else if n == 8 {
        '8'
    } else if n == 9 {
        '9'
    } else if n == 10 {
        'a'
    } else if n == 11 {
        'b'
    } else if n == 12 {
        'c'
    } else if n == 13 {
        'd'
    } else if n == 14 {
        'e'
    } else {
        'f'
    }
}

/// The value a lowercase hex character stands for, if any.
pub open spec fn hex_val(c: char) -> Option<u8> {
    if c == '0' {
        Some(0u8)
    } else if c == '1' {
        Some(1u8)
    } else if c == '2' {
        Some(2u8)
    } else if c == '3' {
        Some(3u8)
    } else if c == '4' {
        Some(4u8)
    } else if c == '5' {
        Some(5u8)
    } else if c == '6' {
        Some(6u8)
    } else if c == '7' {
        Some(7u8)
    } else if c == '8' {
        Some(8u8)
    } else if c == '9' {
        Some(9u8)
    } else if c == 'a' {
        Some(10u8)
    } else if c == 'b' {
        Some(11u8)
    } else if c == 'c' {
        Some(12u8)
    } else if c == 'd' {
        Some(13u8)
    } else if c == 'e' {
        Some(14u8)
    } else if c == 'f' {
        Some(15u8)
    } else {
        None
    }
}

/// The canonical lowercase hex rendering of a byte sequence, two characters
/// per byte, high nibble first.
pub open spec fn hex_of(bytes: Seq<u8>) -> Seq<char>
    decreases bytes.len(),
{
    if bytes.len() == 0 {
        Seq::<char>::empty()
    } else {
        seq![hex_digit(bytes[0] / 16), hex_digit(bytes[0] % 16)] + hex_of(bytes.drop_first())
    }
}

pub proof fn lemma_hex_of_len(bytes: Seq<u8>)
    ensures
        hex_of(bytes).len() == 2 * bytes.len(),
    decreases bytes.len(),
{
    if bytes.len() > 0 {
        lemma_hex_of_len(bytes.drop_first());
    }
}

/// Appending one byte appends its two hex characters.
pub proof fn lemma_hex_of_snoc(bytes: Seq<u8>, b: u8)
    ensures
        hex_of(bytes.push(b)) == hex_of(bytes) + seq![hex_digit(b / 16), hex_digit(b % 16)],
    decreases bytes.len(),
{
    let s = bytes.push(b);
    if bytes.len() == 0 {
        assert(s.len() == 1);
        assert(s[0] == b);
        assert(s.drop_first() =~= Seq::<u8>::empty());
        assert(hex_of(s) == seq![hex_digit(s[0] / 16), hex_digit(s[0] % 16)] + hex_of(
            s.drop_first(),
        ));
        assert(hex_of(Seq::<u8>::empty()) == Seq::<char>::empty());
        assert(hex_of(bytes) == Seq::<char>::empty());
        assert(hex_of(s) =~= hex_of(bytes) + seq![hex_digit(b / 16), hex_digit(b % 16)]);
    } else {
        assert(s[0] == bytes[0]);
        assert(s.drop_first() =~= bytes.drop_first().push(b));
        lemma_hex_of_snoc(bytes.drop_first(), b);
        assert(hex_of(s) == seq![hex_digit(s[0] / 16), hex_digit(s[0] % 16)] + hex_of(
            s.drop_first(),
        ));
        assert(hex_of(bytes) == seq![hex_digit(bytes[0] / 16), hex_digit(bytes[0] % 16)] + hex_of(
            bytes.drop_first(),
        ));
        assert(hex_of(s) =~= hex_of(bytes) + seq![hex_digit(b / 16), hex_digit(b % 16)]);
    }
}

/// The hex rendering read back character pair by character pair.
pub proof fn lemma_hex_of_index(bytes: Seq<u8>, i: int)
    requires
        0 <= i < bytes.len(),
    ensures
        hex_of(bytes).len() == 2 * bytes.len(),
        hex_of(bytes)[2 * i] == hex_digit(bytes[i] / 16),
        hex_of(bytes)[2 * i + 1] == hex_digit(bytes[i] % 16),
    decreases bytes.len(),
{
    lemma_hex_of_len(bytes);
    if i == 0 {
        lemma_hex_of_len(bytes.drop_first());
    } else {
        lemma_hex_of_index(bytes.drop_first(), i - 1);
    }
}

/// Reading a hex digit back gives the nibble it was written from.
pub proof fn lemma_hex_val_of_digit(n: u8)
    requires
        n < 16,
    ensures
        hex_val(hex_digit(n)) == Some(n),
{
}

/// The exec counterpart of [`hex_digit`].
pub fn hex_digit_char(n: u8) -> (c: char)
    requires
        n < 16,
    ensures
        c == hex_digit(n),
{
    if n == 0 {
        '0'
    } else if n == 1 {
        '1'
    } else if n == 2 {
        '2'
    } else if n == 3 {
        '3'
    } else if n == 4 {
        '4'
    } else if n == 5 {
        '5'
    } else if n == 6 {
        '6'
    } else if n == 7 {
        '7'
    } else if n == 8 {
        '8'
    } else if n == 9 {
        '9'
    } else if n == 10 {
        'a'
    } else if n == 11 {
        'b'
    } else if n == 12 {
        'c'
    } else if n == 13 {
        'd'
    } else if n == 14 {
        'e'
    } else {
        'f'
    }
}

/// The exec counterpart of [`hex_val`].
pub fn hex_val_of_char(c: char) -> (r: Option<u8>)
    ensures
        r == hex_val(c),
{
    if c == '0' {
        Some(0u8)
    } else if c == '1' {
        Some(1u8)
    } else if c == '2' {
        Some(2u8)
    } else if c == '3' {
        Some(3u8)
    } else if c == '4' {
        Some(4u8)
    } else if c == '5' {
        Some(5u8)
    } else if c == '6' {
        Some(6u8)
    } else if c == '7' {
        Some(7u8)
    } else if c == '8' {
        Some(8u8)
    } else if c == '9' {
        Some(9u8)
    } else if c == 'a' {
        Some(10u8)
    } else if c == 'b' {
        Some(11u8)
    } else if c == 'c' {
        Some(12u8)
    } else if c == 'd' {
        Some(13u8)
    } else if c == 'e' {
        Some(14u8)
    } else if c == 'f' {
        Some(15u8)
    } else {
        None
    }
}

/// Renders bytes as lowercase hex.
pub fn hex_encode(bytes: &Vec<u8>) -> (r: String)
    ensures
        r@ == hex_of(bytes@),
{
    let mut out = String::new();
    let mut i: usize = 0;
    while i < bytes.len()
        invariant
            0 <= i <= bytes@.len(),
            out@ == hex_of(bytes@.take(i as int)),
        decreases bytes@.len() - i,
    {
        let b = bytes[i];
        let ghost prev = out@;
        out.push(hex_digit_char(b / 16));
        out.push(hex_digit_char(b % 16));
        proof {
            assert(bytes@.take(i + 1) =~= bytes@.take(i as int).push(bytes@[i as int]));
            lemma_hex_of_snoc(bytes@.take(i as int), bytes@[i as int]);
            assert(out@ =~= prev + seq![hex_digit(b / 16), hex_digit(b % 16)]);
        }
        i = i + 1;
    }
    proof {
        assert(bytes@.take(bytes@.len() as int) =~= bytes@);
    }
    out
}

/// Reading a pair of hex characters back gives the byte they were written
/// from.
pub proof fn lemma_hex_digit_of_val(c: char)
    requires
        hex_val(c) is Some,
    ensures
        hex_digit(hex_val(c).unwrap()) == c,
{
}

/// Parses a lowercase hex string back into bytes.  Accepts exactly the
/// strings [`hex_of`] produces: every such string parses back to the bytes
/// it was rendered from, and anything that parses came from its result.
pub fn hex_decode(s: &str) -> (r: Option<Vec<u8>>)
    ensures
        r matches Some(b) ==> hex_of(b@) == s@,
        forall|b: Seq<u8>|
            s@ == hex_of(b) ==> (r matches Some(v) && v@ == b),
{
    let n = s.unicode_len();
    if n % 2 != 0 {
        proof {
            assert forall|b: Seq<u8>| s@ != hex_of(b) by {
                lemma_hex_of_len(b);
            }
        }
        return None;
    }
    let half: usize = n / 2;
    let mut out: Vec<u8> = Vec::new();
    let mut i: usize = 0;
    while i < half
        invariant
            0 <= i <= half,
            n == s@.len(),
            n == 2 * half,
            out@.len() == i,
            hex_of(out@) == s@.take(2 * i),
            forall|b: Seq<u8>| s@ == hex_of(b) ==> out@ == b.take(i as int),
        decreases half - i,
    {
        let hi_c = s.get_char(2 * i);
        let lo_c = s.get_char(2 * i + 1);
        let hi = match hex_val_of_char(hi_c) {
            Some(v) => v,
            None => {
                proof {
                    assert forall|b: Seq<u8>| s@ != hex_of(b) by {
                        if s@ == hex_of(b) {
                            lemma_hex_of_len(b);
                            lemma_hex_of_index(b, i as int);
                            lemma_hex_val_of_digit(b[i as int] / 16);
                            assert(hex_val(s@[2 * i]) is Some);
                        }
                    }
                }
                return None;
            },
        };
        let lo = match hex_val_of_char(lo_c) {
            Some(v) => v,
            None => {
                proof {
                    assert forall|b: Seq<u8>| s@ != hex_of(b) by {
                        if s@ == hex_of(b) {
                            lemma_hex_of_len(b);
                            lemma_hex_of_index(b, i as int);
                            lemma_hex_val_of_digit(b[i as int] % 16);
                            assert(hex_val(s@[2 * i + 1]) is Some);
                        }
                    }
                }
                return None;
            },
        };
        let byte: u8 = hi * 16 + lo;
        let ghost out0 = out@;
        out.push(byte);
        proof {
            assert(byte / 16 == hi && byte % 16 == lo) by {
                assert(hi < 16 && lo < 16);
            }
            lemma_hex_of_snoc(out0, byte);
            lemma_hex_digit_of_val(hi_c);
            lemma_hex_digit_of_val(lo_c);
            assert(hex_of(out@) =~= s@.take(2 * (i + 1))) by {
                assert(hex_of(out@) == hex_of(out0) + seq![hex_digit(byte / 16), hex_digit(
                    byte % 16,
                )]);
                assert(hex_digit(byte / 16) == hi_c);
                assert(hex_digit(byte % 16) == lo_c);
                assert(s@.take(2 * (i + 1)) =~= s@.take(2 * i).push(s@[2 * i]).push(s@[2 * i
                    + 1]));
            }
            assert forall|b: Seq<u8>| s@ == hex_of(b) implies out@ == b.take(i + 1) by {
                lemma_hex_of_len(b);
                assert(b.len() == half);
                lemma_hex_of_index(b, i as int);
                lemma_hex_val_of_digit(b[i as int] / 16);
                lemma_hex_val_of_digit(b[i as int] % 16);
                assert(hex_val(hi_c) == Some(b[i as int] / 16));
                assert(hi == b[i as int] / 16 && lo == b[i as int] % 16);
                assert(byte == b[i as int]);
                assert(out0 == b.take(i as int));
                assert(out@ =~= b.take(i + 1));
            }
        }
        i = i + 1;
    }
    proof {
        assert(s@.take(2 * half) =~= s@);
        assert forall|b: Seq<u8>| s@ == hex_of(b) implies out@ == b by {
            lemma_hex_of_len(b);
            assert(b.take(b.len() as int) =~= b);
        }
    }
    Some(out)
}

/// A stable public-key identity of one endpoint, held as its raw bytes.
#[derive(Debug)]
pub struct NodeId {
    pub bytes: Vec<u8>,
}

impl NodeId {
    /// A well-formed identity holds exactly [`NODE_ID_LEN`] bytes.
    pub open spec fn wf(&self) -> bool {
        self.bytes@.len() == NODE_ID_LEN
    }

    /// Wraps raw key bytes; rejects any length other than [`NODE_ID_LEN`].
    pub fn from_bytes(bytes: Vec<u8>) -> (r: Result<NodeId, ErrorKind>)
        ensures
            bytes@.len() == NODE_ID_LEN ==> (r matches Ok(n) && n.bytes@ == bytes@ && n.wf()),
            bytes@.len() != NODE_ID_LEN ==> (r matches Err(e) && e == ErrorKind::BadPayload),
    {
        if bytes.len() == NODE_ID_LEN {
            Ok(NodeId { bytes })
        } else {
            Err(ErrorKind::BadPayload)
        }
    }

    /// The canonical display form: the full lowercase hex encoding.
    pub fn to_hex(&self) -> (r: String)
        ensures
            r@ == hex_of(self.bytes@),
    {
        hex_encode(&self.bytes)
    }

    /// The short display form used in logs: the first ten hex characters.
    pub fn fmt_short(&self) -> (r: String)
        requires
            self.wf(),
        ensures
            r@ == hex_of(self.bytes@).take(NODE_ID_SHORT_LEN as int),
    {
        let full = hex_encode(&self.bytes);
        proof {
            lemma_hex_of_len(self.bytes@);
        }
        let mut out = String::new();
        let mut i: usize = 0;
        while i < NODE_ID_SHORT_LEN
            invariant
                0 <= i <= NODE_ID_SHORT_LEN,
                full@ == hex_of(self.bytes@),
                full@.len() == 64,
                out@ == full@.take(i as int),
            decreases NODE_ID_SHORT_LEN - i,
        {
            let c = full.as_str().get_char(i);
            out.push(c);
            proof {
                assert(out@ =~= full@.take(i + 1));
            }
            i = i + 1;
        }
        out
    }

    /// Parses the canonical hex display form back into an identity.
    /// Accepts exactly the hex renderings of full-length keys.
    pub fn from_hex(s: &str) -> (r: Option<NodeId>)
        ensures
            r matches Some(n) ==> n.wf() && hex_of(n.bytes@) == s@,
            forall|b: Seq<u8>|
                (s@ == hex_of(b) && b.len() == NODE_ID_LEN) ==> (r matches Some(n) && n.bytes@
                    == b),
    {
        match hex_decode(s) {
            Some(bytes) => {
                if bytes.len() == NODE_ID_LEN {
                    Some(NodeId { bytes })
                } else {
                    proof {
                        assert forall|b: Seq<u8>|
                            !(s@ == hex_of(b) && b.len() == NODE_ID_LEN) by {
                            if s@ == hex_of(b) && b.len() == NODE_ID_LEN {
                                assert(bytes@ == b);
                            }
                        }
                    }
                    None
                }
            },
            None => None,
        }
    }

    /// An identical copy of this identity.
    pub fn duplicate(&self) -> (r: NodeId)
        ensures
            r.bytes@ == self.bytes@,
    {
        NodeId { bytes: copy_bytes(&self.bytes) }
    }

    /// Whether two identities hold the same key bytes.
    pub fn same_as(&self, other: &NodeId) -> (r: bool)
        ensures
            r == (self.bytes@ == other.bytes@),
    {
        if self.bytes.len() != other.bytes.len() {
            proof {
                assert(self.bytes@ != other.bytes@);
            }
            return false;
        }
        let mut i: usize = 0;
        while i < self.bytes.len()
            invariant
                0 <= i <= self.bytes@.len(),
                self.bytes@.len() == other.bytes@.len(),
                forall|k: int| 0 <= k < i ==> self.bytes@[k] == other.bytes@[k],
            decreases self.bytes@.len() - i,
        {
            if self.bytes[i] != other.bytes[i] {
                proof {
                    assert(self.bytes@[i as int] != other.bytes@[i as int]);
                }
                return false;
            }
            i = i + 1;
        }
        proof {
            assert(self.bytes@ =~= other.bytes@);
        }
        true
    }
}

/// One text message in flight, with its author-side timestamp in
/// milliseconds since the Unix epoch.
#[derive(Debug)]
pub struct TextMessage {
    pub content: String,
    pub timestamp: u64,
}

impl TextMessage {
    pub fn new(content: String, timestamp: u64) -> (r: TextMessage)
        ensures
            r.content@ == content@,
            r.timestamp == timestamp,
    {
        TextMessage { content, timestamp }
    }
}

} // verus!
