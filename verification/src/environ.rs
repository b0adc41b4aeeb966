//! What a measurement is run under: the settings that a user gives and the
//! facts that the system reports about itself.

use crate::text::{
    chars_of, contains_part, find_beginning, first_beginning, has_part, number_up_to,
    parse_number, same_text, split, split_text, starts_with, string_of, trim_text, trimmed, views,
    Separator,
};
use vstd::prelude::*;

verus! {

/// The rates to try, in messages per second, where nothing else is asked for.
pub open spec fn default_rates() -> Seq<u64> {
    seq![10_000u64, 100_000, 1_000_000]
}

/// The numbers among comma-separated `items`; what is none is left out.
pub open spec fn numbers_in(items: Seq<Seq<char>>) -> Seq<u64>
    decreases items.len(),
{
    if items.len() == 0 {
        Seq::empty()
    } else {
        let before = numbers_in(items.drop_last());
        match number_up_to(trimmed(items.last()), u64::MAX as nat) {
            Some(n) => before.push(n as u64),
            None => before,
        }
    }
}

/// The rates that a setting asks for.
pub open spec fn rates_of(setting: Option<Seq<char>>) -> Seq<u64> {
    match setting {
        Some(text) => {
            let rates = numbers_in(split(text, Separator::At(',')));
            if rates.len() > 0 {
                rates
            } else {
                default_rates()
            }
        },
        None => default_rates(),
    }
}

/// The count that a setting asks for; `default` where it is missing or none.
pub open spec fn count_of(setting: Option<Seq<char>>, default: usize) -> usize {
    match setting {
        Some(text) => match number_up_to(text, usize::MAX as nat) {
            Some(n) => n as usize,
            None => default,
        },
        None => default,
    }
}

/// The processor's name: what follows the colon of the first line that begins
/// with `model name`, up to another colon.
pub open spec fn cpu_model_of(cpuinfo: Seq<char>) -> Seq<char> {
    match first_beginning(split(cpuinfo, Separator::At('\n')), "model name"@) {
        Some(line) => {
            let fields = split(line, Separator::At(':'));
            if fields.len() > 1 {
                trimmed(fields[1])
            } else {
                "unknown"@
            }
        },
        None => "unknown"@,
    }
}

/// Which flags of a reliable time stamp counter the processor has.
pub open spec fn tsc_flags_of(cpuinfo: Seq<char>) -> Seq<char> {
    match (has_part(cpuinfo, "constant_tsc"@), has_part(cpuinfo, "nonstop_tsc"@)) {
        (true, true) => "constant_tsc,nonstop_tsc"@,
        (true, false) => "constant_tsc"@,
        (false, true) => "nonstop_tsc"@,
        (false, false) => "none (TSC may be unreliable)"@,
    }
}

/// The word of the kernel's command line that isolates cores.
pub open spec fn isolcpus_of(cmdline: Seq<char>) -> Seq<char> {
    match first_beginning(split(cmdline, Separator::White), "isolcpus="@) {
        Some(word) => word,
        None => "none"@,
    }
}

/// Reads a comma-separated list of rates, in messages per second.
pub fn parse_rates(setting: Option<&str>) -> (rates: Vec<u64>)
    ensures
        setting is None ==> rates@ == rates_of(None),
        setting matches Some(text) ==> rates@ == rates_of(Some(text@)),
{
    if let Some(text) = setting {
        let chars = chars_of(text);
        let items = split_text(chars.as_slice(), Separator::At(','));
        let ghost all = views(items@);
        let mut rates: Vec<u64> = Vec::new();
        let mut i: usize = 0;
        while i < items.len()
            invariant
                i <= items@.len(),
                all == views(items@),
                rates@ == numbers_in(all.take(i as int)),
            decreases items@.len() - i,
        {
            assert(all.take(i + 1).drop_last() =~= all.take(i as int));
            let item = trim_text(items[i].as_slice());
            if let Some(n) = parse_number(item.as_slice(), u64::MAX) {
                rates.push(n);
            }
            i += 1;
        }
        assert(all.take(i as int) =~= all);
        if rates.len() > 0 {
            return rates;
        }
    }
    let rates: Vec<u64> = vec![10_000, 100_000, 1_000_000];
    assert(rates@ =~= default_rates());
    rates
}

/// Reads a count.
pub fn parse_count(setting: Option<&str>, default: usize) -> (n: usize)
    ensures
        setting is None ==> n == count_of(None, default),
        setting matches Some(text) ==> n == count_of(Some(text@), default),
{
    if let Some(text) = setting {
        let chars = chars_of(text);
        if let Some(n) = parse_number(chars.as_slice(), usize::MAX as u64) {
            return n as usize;
        }
    }
    default
}

/// Reads the processor's name from the text of `/proc/cpuinfo`.
pub fn cpu_model(cpuinfo: &str) -> (name: String)
    ensures
        name@ == cpu_model_of(cpuinfo@),
{
    let chars = chars_of(cpuinfo);
    let lines = split_text(chars.as_slice(), Separator::At('\n'));
    if let Some(i) = find_beginning(&lines, chars_of("model name").as_slice()) {
        let fields = split_text(lines[i].as_slice(), Separator::At(':'));
        assert(views(fields@).len() == fields@.len());
        if fields.len() > 1 {
            assert(views(fields@)[1] == fields@[1]@);
            return string_of(trim_text(fields[1].as_slice()).as_slice());
        }
    }
    "unknown".to_owned()
}

/// Reads the flags of the time stamp counter from the text of `/proc/cpuinfo`.
pub fn tsc_flags(cpuinfo: &str) -> (flags: String)
    ensures
        flags@ == tsc_flags_of(cpuinfo@),
{
    let chars = chars_of(cpuinfo);
    let constant = contains_part(chars.as_slice(), chars_of("constant_tsc").as_slice());
    let nonstop = contains_part(chars.as_slice(), chars_of("nonstop_tsc").as_slice());
    let flags = if constant && nonstop {
        "constant_tsc,nonstop_tsc"
    } else if constant {
        "constant_tsc"
    } else if nonstop {
        "nonstop_tsc"
    } else {
        "none (TSC may be unreliable)"
    };
    flags.to_owned()
}

/// Reads the setting that isolates cores from the kernel's command line.
pub fn isolcpus(cmdline: &str) -> (word: String)
    ensures
        word@ == isolcpus_of(cmdline@),
{
    let chars = chars_of(cmdline);
    let words = split_text(chars.as_slice(), Separator::White);
    match find_beginning(&words, chars_of("isolcpus=").as_slice()) {
        Some(i) => string_of(words[i].as_slice()),
        None => "none".to_owned(),
    }
}

/// Whether tail latencies measured here mean anything: on Linux, with cores
/// isolated.
pub fn valid_tail_environment(os: &str, isolcpus: &str) -> (r: bool)
    ensures
        r == (os@ == "linux"@ && isolcpus@ != "none"@),
{
    same_text(os, "linux") && !same_text(isolcpus, "none")
}

/// Whether the block device under test was recorded.
pub fn device_recorded(device: &str) -> (r: bool)
    ensures
        r == !"unset"@.is_prefix_of(device@),
{
    !starts_with(chars_of(device).as_slice(), chars_of("unset").as_slice())
}

} // verus!
