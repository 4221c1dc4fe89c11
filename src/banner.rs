//! The start-up banner and the phrases shown while loading and when ready.

use vstd::prelude::*;

verus! {

/// Relies on `std::time::SystemTime::now`: nanoseconds since the Unix epoch,
/// zero for a clock set before it.
#[verifier::external_body]
fn now_nanos() -> u128 {
    std::time::SystemTime::now().duration_since(std::time::UNIX_EPOCH).unwrap_or_default().as_nanos()
}

/// The low 64 bits of a time stamp mixed with two shifted copies of itself.
pub open spec fn phrase_seed(nanos: u128) -> u128 {
    (nanos ^ (nanos >> 17u128) ^ (nanos >> 34u128)) & 0xffff_ffff_ffff_ffffu128
}

/// Which of `count` phrases a time stamp picks.
pub fn phrase_index(nanos: u128, count: usize) -> (r: usize)
    requires
        count > 0,
    ensures
        r as u128 == phrase_seed(nanos) % (count as u128),
        r < count,
{
    let seed: u128 = (nanos ^ (nanos >> 17u128) ^ (nanos >> 34u128)) & 0xffff_ffff_ffff_ffffu128;
    let r = seed % (count as u128);
    r as usize
}

/// Number of start-up phrases.
pub const STARTUP_PHRASE_COUNT: usize = 8;

/// Number of ready phrases.
pub const READY_PHRASE_COUNT: usize = 11;

/// The `i`-th start-up phrase.
pub fn startup_phrase(i: usize) -> &'static str {
    if i == 0 {
        "Gathering the witnesses..."
    } else if i == 1 {
        "Preparing the trial..."
    } else if i == 2 {
        "Assembling the evidence..."
    } else if i == 3 {
        "Let there be tests..."
    } else if i == 4 {
        "Seeking the truth..."
    } else if i == 5 {
        "The testimony awaits..."
    } else if i == 6 {
        "In the beginning was the code..."
    } else {
        "Try all things..."
    }
}

/// The `i`-th ready phrase.
pub fn ready_phrase(i: usize) -> &'static str {
    if i == 0 {
        "Let the truth be known."
    } else if i == 1 {
        "The truth shall set you free."
    } else if i == 2 {
        "Seek and you shall find."
    } else if i == 3 {
        "Ask, and it shall be given."
    } else if i == 4 {
        "Test with conviction."
    } else if i == 5 {
        "Prove all things."
    } else if i == 6 {
        "Let your code be tested."
    } else if i == 7 {
        "Bear witness."
    } else if i == 8 {
        "Testament is ready."
    } else if i == 9 {
        "Standing in testimony."
    } else {
        "Prepared to testify."
    }
}

/// A start-up phrase picked by the clock.
pub fn random_startup_phrase() -> &'static str {
    startup_phrase(phrase_index(now_nanos(), STARTUP_PHRASE_COUNT))
}

/// A ready phrase picked by the clock.
pub fn random_ready_phrase() -> &'static str {
    ready_phrase(phrase_index(now_nanos(), READY_PHRASE_COUNT))
}

/// The start-up banner.
pub fn startup_art() -> &'static str {
    r#"
                         ▒▒▒▒▒
                         ▒▒░▒▒
                ░░    ▒▒░░░░░░░░▒░    ░░
                 ░░   ░▒▒▒▒░▒▒▒▒▒    ░░
           ░░     ░░     ▒▒░▒▒      ░░     ░░
              ░░   ░░    ▒▒░▒▒    ░░    ░░
                 ░░  ░░  ▒▒░▒▒   ░░  ░░
         ░░░░░░░░  ░░    ▒▒░▒▒     ░░  ░░░░░░░░
                         ░▒▒▒▒
         ░░░░░░░░░░░░             ░░░░░░░░░░
     ▒█░░░░░░▒▒▒▒▒▒░▒░░░░     ░░░░▒▒░░▒▒▒▒▒▒░░▒██▓
     ▓▓░░░░░░▒▒▒▒▒░░▒▒▒▒░░░█▒░░▒▒▒▒▒░░▒▒▒▒▒▒░░░░█▓
     █▓░░░░░▒▒▒▒▒▒░░▒▒▒▒▒▒░░░▒▒▒▒▒▒▒░░▒▒▒▒▒▒░░░░▓█▓
     █░░░▒░░▒▒▒▒▒▒░░▒▒▒▒▒▒░░░▒▒▒▒▒▒▒░░▒▒▒▒▒▒▒░░░░█▓
    ▓█░░░░░░▒▒▒▒▒▒░░▒▒▒▒▒▒░░░▒▒▒▒▒▒▒░░▒▒▒▒▒▒▒░░▒░▓█
    █▓░░░░░░▒▒▒▒▒▒░░▒▒▒▒▒▒░░░▒▒▒▒▒▒▒░░▒▒▒▒▒▒▒░░░░▒█▒
   ▓█▒░░░░░▒▒▒▒▒▒▒░░▒▒▒▒▒▒░░░▒▒▒▒▒▒▒░░▒▒▒▒▒▒▒▒░░░░▓▓
   ▓█░░░▒░░▒▒▒▒▒▒▒░░▒▒▒▒▒▒░░░▒▒▒▒▒▒▒░░▒▒▒▒▒▒▒▒░░▒░▒█▓
   █▓░░░░░░▒▒▒▒░░░░░░░░░▒▒░░░▒▒░░░░░░░░░░░░▒▒▒░░▒░░▓▓
  ▓█▒░░░░░░░░░░░▒▒▒▒▒▒▒░░░░░░░░▒▒▒▒▒▒▒▒▒▒░░░░░░░░░░▓█▓
  ▓█░░░▒░░░▒▒▒▒▒▒▒▒▒▒▒▒▒▒▒▒▒▒▒▒▒▒▒▒▒▒▒▒▒▒▒▒▒▒▒▒▒░▒░░█▓
  █▓░░░▒▒▒▒▒▒▒▓▓▓█████████████▓█████████████▓▓▒▒▒▒▒░▓█
  ▓█▓▒▓▓▓███▓▓▓▓▓▓▓                   ▓▓▓▓▓▓▓▓▓█████▓█▓
"#
}

} // verus!
