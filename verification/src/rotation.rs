//! Rotation policy of a rotating capture file, as tcpdump's `-C <MB>`
//! (size) and `-G <secs>` (time): when to start a new file, and what it is
//! called (`<stem>_NNN.pcap`).

use vstd::prelude::*;
use vstd::string::StringExecFns;
use crate::text::{decimal, push_decimal, push_str, push_char};

verus! {

/// Bytes in a megabyte, as `-C` counts them.
pub const MEGABYTE: u64 = 1048576;

/// `d` padded with leading zeros to at least three characters, as `{:03}`
/// writes a number.
pub open spec fn pad3(d: Seq<char>) -> Seq<char> {
    if d.len() >= 3 {
        d
    } else if d.len() == 2 {
        seq!['0'] + d
    } else {
        seq!['0', '0'] + d
    }
}

/// The name of the file with number `index`.
pub open spec fn rotation_file_name(stem: Seq<char>, index: u32) -> Seq<char> {
    stem + "_"@ + pad3(decimal(index as nat)) + ".pcap"@
}

pub proof fn lemma_decimal_len(n: nat)
    ensures
        n < 10 ==> decimal(n).len() == 1,
        10 <= n < 100 ==> decimal(n).len() == 2,
        n >= 100 ==> decimal(n).len() >= 3,
    decreases n,
{
    if n >= 10 {
        lemma_decimal_len(n / 10);
    }
}

/// The byte limit of `max_mb` megabytes; 0 turns it off.
pub open spec fn byte_limit(max_mb: u64) -> Option<u64> {
    if max_mb > 0 {
        Some((max_mb * MEGABYTE) as u64)
    } else {
        None
    }
}

/// The time limit of `max_secs` seconds; 0 turns it off.
pub open spec fn time_limit(max_secs: u64) -> Option<u64> {
    if max_secs > 0 {
        Some(max_secs)
    } else {
        None
    }
}

/// A packet of `len` bytes would take the file past the byte limit, or the
/// file has been open for at least the time limit.
pub open spec fn rotation_due(max_bytes: Option<u64>, max_secs: Option<u64>, bytes: u64, len: u64, elapsed: u64) -> bool {
    (max_bytes matches Some(m) && bytes + len > m) || (max_secs matches Some(s) && elapsed >= s)
}

/// The rotation state of a capture file series.
pub struct RotatingPcapWriter {
    stem: String,
    max_bytes: Option<u64>,
    max_secs: Option<u64>,
    index: u32,
    open: bool,
    bytes: u64,
}

/// Stem, byte limit, time limit, number of the next file, whether a file is
/// open, bytes written to it.
pub type RotationView = (Seq<char>, Option<u64>, Option<u64>, u32, bool, u64);

impl View for RotatingPcapWriter {
    type V = RotationView;

    closed spec fn view(&self) -> RotationView {
        (self.stem@, self.max_bytes, self.max_secs, self.index, self.open, self.bytes)
    }
}

impl RotatingPcapWriter {
    /// Files are named after `stem`; `max_mb` megabytes and `max_secs`
    /// seconds limit each file, 0 turning a limit off. No file is open yet.
    pub fn new(stem: &str, max_mb: u64, max_secs: u64) -> (r: Self)
        requires
            max_mb * MEGABYTE <= u64::MAX,
        ensures
            r@ == (stem@, byte_limit(max_mb), time_limit(max_secs), 0u32, false, 0u64),
    {
        RotatingPcapWriter {
            stem: String::from_str(stem),
            max_bytes: if max_mb > 0 {
                Some(max_mb * MEGABYTE)
            } else {
                None
            },
            max_secs: if max_secs > 0 {
                Some(max_secs)
            } else {
                None
            },
            index: 0,
            open: false,
            bytes: 0,
        }
    }

    /// The number the next file gets.
    pub fn next_index(&self) -> (r: u32)
        ensures
            r == self@.3,
    {
        self.index
    }

    /// Bytes written to the open file.
    pub fn bytes_written(&self) -> (r: u64)
        ensures
            r == self@.5,
    {
        self.bytes
    }

    /// Whether a packet of `len` bytes, with the file open for `elapsed`
    /// seconds, starts a new file.
    pub fn should_rotate(&self, len: u64, elapsed: u64) -> (r: bool)
        ensures
            r == rotation_due(self@.1, self@.2, self@.5, len, elapsed),
    {
        let over_size = match self.max_bytes {
            Some(m) => match self.bytes.checked_add(len) {
                Some(t) => t > m,
                None => true,
            },
            None => false,
        };
        let over_time = match self.max_secs {
            Some(s) => elapsed >= s,
            None => false,
        };
        over_size || over_time
    }

    /// The name of the next file.
    pub fn next_file_name(&self) -> (r: String)
        ensures
            r@ == rotation_file_name(self@.0, self@.3),
    {
        proof {
            lemma_decimal_len(self.index as nat);
        }
        let mut r = String::from_str(self.stem.as_str());
        push_char(&mut r, '_');
        if self.index < 10 {
            push_str(&mut r, "00");
            proof {
                reveal_strlit("00");
            }
        } else if self.index < 100 {
            push_char(&mut r, '0');
        }
        let ghost before = r@;
        push_decimal(&mut r, self.index as u64);
        push_str(&mut r, ".pcap");
        proof {
            let d = decimal(self.index as nat);
            if self.index < 10 {
                assert(before == self.stem@ + "_"@ + seq!['0', '0']) by {
                    reveal_strlit("_");
                    reveal_strlit("00");
                }
            } else if self.index < 100 {
                assert(before == self.stem@ + "_"@ + seq!['0']) by {
                    reveal_strlit("_");
                }
            } else {
                assert(before == self.stem@ + "_"@) by {
                    reveal_strlit("_");
                }
            }
            assert(r@ == before + d + ".pcap"@);
        }
        r
    }

    /// Before a packet of `len` bytes is written, with the current file open
    /// for `elapsed` seconds: the name of the file to start first, if one
    /// must be started (none is open, or rotation is due).
    pub fn plan_write(&self, len: u64, elapsed: u64) -> (r: Option<String>)
        ensures
            match r {
                Some(name) => (!self@.4 || rotation_due(self@.1, self@.2, self@.5, len, elapsed)) && name@ == rotation_file_name(self@.0, self@.3),
                None => self@.4 && !rotation_due(self@.1, self@.2, self@.5, len, elapsed),
            },
    {
        if !self.open || self.should_rotate(len, elapsed) {
            Some(self.next_file_name())
        } else {
            None
        }
    }

    /// A new file was started: the next one gets the following number, and
    /// the new file holds nothing yet.
    pub fn file_opened(&mut self)
        requires
            old(self)@.3 < u32::MAX,
        ensures
            final(self)@ == (old(self)@.0, old(self)@.1, old(self)@.2, (old(self)@.3 + 1) as u32, true, 0u64),
    {
        self.index = self.index + 1;
        self.open = true;
        self.bytes = 0;
    }

    /// A packet of `len` bytes was written to the open file.
    pub fn packet_written(&mut self, len: u64)
        requires
            old(self)@.5 + len <= u64::MAX,
        ensures
            final(self)@ == (old(self)@.0, old(self)@.1, old(self)@.2, old(self)@.3, old(self)@.4, (old(self)@.5 + len) as u64),
    {
        self.bytes = self.bytes + len;
    }
}

/// Where no new file is started, the packet keeps the open file within
/// the byte limit.
pub proof fn law_no_rotation_within_limit(v: RotationView, len: u64, elapsed: u64)
    requires
        v.4,
        !rotation_due(v.1, v.2, v.5, len, elapsed),
    ensures
        v.1 matches Some(m) ==> v.5 + len <= m,
        v.2 matches Some(s) ==> elapsed < s,
{
}

/// A new file is started when the packet would take the open file past
/// `max_mb` mebibytes, or when the file has been open `max_secs` seconds;
/// a limit of 0 is off.
pub proof fn law_rotation_limits(max_mb: u64, max_secs: u64, bytes: u64, len: u64, elapsed: u64)
    requires
        max_mb * 1048576 <= u64::MAX,
    ensures
        rotation_due(byte_limit(max_mb), time_limit(max_secs), bytes, len, elapsed) <==> ((max_mb > 0 && bytes + len > max_mb * 1048576) || (
        max_secs > 0 && elapsed >= max_secs)),
{
}

} // verus!
