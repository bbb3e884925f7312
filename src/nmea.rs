//! NMEA 0183 sentence framing for the GPS-daemon emulation.
use vstd::prelude::*;
use vstd::string::StringSliceAdditionalSpecFns;

verus! {

/// The XOR of all bytes of `b`.
pub open spec fn xor_all(b: Seq<u8>) -> u8
    decreases b.len(),
{
    if b.len() == 0 {
        0
    } else {
        xor_all(b.drop_last()) ^ b.last()
    }
}

/// The upper-case hexadecimal digit for `n < 16`.
pub open spec fn hex_digit(n: u8) -> char {
    if n < 10 {
        (n + 48) as char
    } else {
        (n + 55) as char
    }
}

/// The sentence for `body`: `$`, the body, `*`, the XOR of the body's bytes
/// as two upper-case hexadecimal digits, CR and LF.
pub open spec fn nmea_sentence(body: Seq<char>, checksum: u8) -> Seq<char> {
    seq!['$'] + body + seq!['*', hex_digit(checksum / 16), hex_digit(checksum % 16), '\r', '\n']
}

/// The XOR of all bytes of `body`.
pub fn nmea_checksum(body: &str) -> (r: u8)
    ensures
        r == xor_all(body.spec_bytes()),
{
    let bytes = body.as_bytes();
    let mut checksum: u8 = 0;
    let mut i: usize = 0;
    while i < bytes.len()
        invariant
            i <= bytes@.len(),
            bytes@ == body.spec_bytes(),
            checksum == xor_all(bytes@.take(i as int)),
        decreases bytes@.len() - i,
    {
        assert(bytes@.take(i as int + 1).drop_last() =~= bytes@.take(i as int));
        checksum = checksum ^ bytes[i];
        i = i + 1;
    }
    assert(bytes@.take(i as int) =~= bytes@);
    checksum
}

/// The digit for `n` as a one-character string.
fn hex_digit_str(n: u8) -> (r: &'static str)
    requires
        n < 16,
    ensures
        r@ == seq![hex_digit(n)],
{
    match n {
        0 => {
            proof {
                reveal_strlit("0");
            }
            "0"
        },
        1 => {
            proof {
                reveal_strlit("1");
            }
            "1"
        },
        2 => {
            proof {
                reveal_strlit("2");
            }
            "2"
        },
        3 => {
            proof {
                reveal_strlit("3");
            }
            "3"
        },
        4 => {
            proof {
                reveal_strlit("4");
            }
            "4"
        },
        5 => {
            proof {
                reveal_strlit("5");
            }
            "5"
        },
        6 => {
            proof {
                reveal_strlit("6");
            }
            "6"
        },
        7 => {
            proof {
                reveal_strlit("7");
            }
            "7"
        },
        8 => {
            proof {
                reveal_strlit("8");
            }
            "8"
        },
        9 => {
            proof {
                reveal_strlit("9");
            }
            "9"
        },
        10 => {
            proof {
                reveal_strlit("A");
            }
            "A"
        },
        11 => {
            proof {
                reveal_strlit("B");
            }
            "B"
        },
        12 => {
            proof {
                reveal_strlit("C");
            }
            "C"
        },
        13 => {
            proof {
                reveal_strlit("D");
            }
            "D"
        },
        14 => {
            proof {
                reveal_strlit("E");
            }
            "E"
        },
        15 => {
            proof {
                reveal_strlit("F");
            }
            "F"
        },
        _ => {
            proof {
                reveal_strlit("F");
            }
            "F"
        },
    }
}

/// Frames `body` as an NMEA sentence with its checksum.
pub fn format_nmea(body: &str) -> (r: String)
    ensures
        r@ == nmea_sentence(body@, xor_all(body.spec_bytes())),
{
    let checksum = nmea_checksum(body);
    proof {
        reveal_strlit("$");
        reveal_strlit("*");
        reveal_strlit("\r\n");
    }
    let mut s = "$".to_owned();
    s.append(body);
    s.append("*");
    s.append(hex_digit_str(checksum / 16));
    s.append(hex_digit_str(checksum % 16));
    s.append("\r\n");
    assert(s@ =~= nmea_sentence(body@, checksum));
    s
}

} // verus!
