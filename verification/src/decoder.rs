//! The stream format a decoded track is played with, worked out from what the
//! container reports. Decoding itself happens outside this library.
use vstd::prelude::*;

verus! {

/// The channel count used: the reported one when it is above zero, else two.
pub open spec fn channel_count_spec(channels: Option<usize>) -> nat {
    match channels {
        Some(c) => if c > 0 {
            c as nat
        } else {
            2
        },
        None => 2,
    }
}

/// The sample rate used: the reported one when it is above zero, else 44100 Hz.
pub open spec fn sample_rate_spec(sample_rate: Option<u32>) -> u32 {
    match sample_rate {
        Some(r) => if r > 0 {
            r
        } else {
            44_100
        },
        None => 44_100,
    }
}

/// The channel count and sample rate of a stream. The channel count is kept
/// in sixteen bits, as the player takes it (the count modulo 65536); a count
/// that comes to zero that way is refused.
pub fn stream_format(channels: Option<usize>, sample_rate: Option<u32>) -> (r: Result<(u16, u32), String>)
    ensures
        r is Ok <==> channel_count_spec(channels) % 65536 != 0,
        r matches Ok((c, s)) ==> c == channel_count_spec(channels) % 65536 && s == sample_rate_spec(sample_rate),
        r matches Err(m) ==> m@ == "Número de canales inválido"@,
{
    let count: usize = match channels {
        Some(c) => if c > 0 {
            c
        } else {
            2
        },
        None => 2,
    };
    let count16: u16 = (count % 65536) as u16;
    let rate: u32 = match sample_rate {
        Some(r) => if r > 0 {
            r
        } else {
            44_100
        },
        None => 44_100,
    };
    if count16 == 0 {
        return Err(String::from_str("Número de canales inválido"));
    }
    Ok((count16, rate))
}

} // verus!
