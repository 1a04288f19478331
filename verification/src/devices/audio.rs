//! Reading the device list that the audio cmdlets print, and naming each device.
use vstd::prelude::*;

use super::{Device, DeviceCategory, DeviceModel};
use crate::text::{
    chars_of, contains_chars, first_index_of, has_substring, last_index_of, line_pieces,
    lowercase, remove_pattern, split_lines, starts_with_chars, substring, to_lowercase,
    trim_bounds, trimmed, without,
};
use vstd::string::StringExecFns;

verus! {

broadcast use vstd::string::group_string_axioms;

/// The name of the cmdlet module that lists and switches audio devices.
pub open spec fn module_name() -> Seq<char> {
    "AudioDeviceCmdlets"@
}

/// The line that `chcp` prints before the listing.
pub open spec fn code_page_banner() -> Seq<char> {
    "Active code page:"@
}

/// The text between the first `(` and the last `)` of `raw`, when it has both;
/// `None` when one of them is missing.
pub open spec fn paren_inner(raw: Seq<char>) -> Option<Seq<char>> {
    match (raw.index_of_first('('), raw.index_of_last(')')) {
        (Some(a), Some(b)) => Some(raw.subrange(a + 1, b)),
        _ => None,
    }
}

/// Whether the last `)` of `raw` does not come before its first `(`
/// (true when one of them is missing).
pub open spec fn parens_in_order(raw: Seq<char>) -> bool {
    match (raw.index_of_first('('), raw.index_of_last(')')) {
        (Some(a), Some(b)) => a < b,
        _ => true,
    }
}

/// The hardware name in `raw`: the text in its parentheses, or else `raw`
/// without `prefix`, trimmed.
pub open spec fn hardware_name(raw: Seq<char>, prefix: Seq<char>) -> Seq<char> {
    match paren_inner(raw) {
        Some(inner) => inner,
        None => trimmed(without(raw, prefix)),
    }
}

/// The hardware name in an English `raw`: the text in its parentheses, or else `raw`.
pub open spec fn hardware_name_english(raw: Seq<char>) -> Seq<char> {
    match paren_inner(raw) {
        Some(inner) => inner,
        None => raw,
    }
}

/// Whether the lowercased name `n` holds a word from which the kind is read
/// and the hardware name extracted.
pub open spec fn kind_word_in(n: Seq<char>) -> bool {
    ||| has_substring(n, "耳机"@)
    ||| has_substring(n, "扬声器"@)
    ||| has_substring(n, "headphone"@)
    ||| has_substring(n, "speaker"@)
}

/// Whether the kind of the device named `raw` is read from a word that makes
/// the hardware name be extracted.
pub open spec fn names_hardware(raw: Seq<char>) -> bool {
    kind_word_in(lowercase(raw))
}

/// Whether naming the device `raw` is defined: the original slicing between
/// the parentheses needs them in order wherever it takes place.
pub open spec fn device_info_defined(raw: Seq<char>) -> bool {
    names_hardware(raw) ==> parens_in_order(raw)
}

/// The kind and the display name of the device with raw name `raw`, given
/// the lowercase forms `name_lower` of its name and `id_lower` of its id.
pub open spec fn device_info_lowered(name_lower: Seq<char>, id_lower: Seq<char>, raw: Seq<char>) -> (
    Seq<char>,
    Seq<char>,
) {
    let n = name_lower;
    let i = id_lower;
    if has_substring(n, "耳机"@) {
        ("headphones"@, hardware_name(raw, "耳机"@))
    } else if has_substring(n, "扬声器"@) {
        ("speakers"@, hardware_name(raw, "扬声器"@))
    } else if has_substring(n, "headphone"@) {
        ("headphones"@, hardware_name_english(raw))
    } else if has_substring(n, "speaker"@) {
        ("speakers"@, hardware_name_english(raw))
    } else if has_substring(n, "hdmi"@) || has_substring(i, "hdmi"@) {
        ("hdmi"@, raw)
    } else if has_substring(n, "bluetooth"@) || has_substring(n, "蓝牙"@) {
        ("bluetooth"@, raw)
    } else {
        ("speakers"@, raw)
    }
}

/// The kind and the display name of the device with system id `id` and raw name `raw`.
pub open spec fn device_info(id: Seq<char>, raw: Seq<char>) -> (Seq<char>, Seq<char>) {
    device_info_lowered(lowercase(raw), lowercase(id), raw)
}

/// The `(id, raw name)` that a trimmed listing line `t` names, if it names one.
pub open spec fn listing_entry(t: Seq<char>) -> Option<(Seq<char>, Seq<char>)> {
    if t.len() == 0 || code_page_banner().is_prefix_of(t) {
        None
    } else {
        match t.index_of_first('|') {
            Some(k) => Some((t.take(k), t.skip(k + 1))),
            None => None,
        }
    }
}

/// The device that the entry `(id, raw)` describes.
pub open spec fn entry_device(id: Seq<char>, raw: Seq<char>) -> DeviceModel {
    DeviceModel {
        id,
        name: device_info(id, raw).1,
        device_type: device_info(id, raw).0,
        category: DeviceCategory::Audio,
    }
}

/// The devices that the listing lines `lines` describe, in order.
pub open spec fn listing_devices(lines: Seq<Seq<char>>) -> Seq<DeviceModel>
    decreases lines.len(),
{
    if lines.len() == 0 {
        seq![]
    } else {
        let before = listing_devices(lines.drop_last());
        match listing_entry(trimmed(lines.last())) {
            Some(e) => before.push(entry_device(e.0, e.1)),
            None => before,
        }
    }
}

/// Whether naming every device that `lines` describe is defined.
pub open spec fn listing_defined(lines: Seq<Seq<char>>) -> bool {
    forall|k: int|
        0 <= k < lines.len() ==> match #[trigger] listing_entry(trimmed(lines[k])) {
            Some(e) => device_info_defined(e.1),
            None => true,
        }
}

/// The text between the first `(` and the last `)` of `raw`, when it has both.
fn paren_text(raw: &str) -> (r: Option<String>)
    requires
        parens_in_order(raw@),
    ensures
        match paren_inner(raw@) {
            Some(inner) => r matches Some(s) && s@ == inner,
            None => r is None,
        },
{
    let cs = chars_of(raw);
    proof {
        raw@.index_of_first_ensures('(');
        raw@.index_of_last_ensures(')');
    }
    match first_index_of(&cs, '(') {
        Some(a) => match last_index_of(&cs, ')') {
            Some(b) => {
                assert(raw@.index_of_first('(') == Some(a as int));
                assert(raw@.index_of_last(')') == Some(b as int));
                assert(a < b);
                Some(substring(raw, a + 1, b))
            },
            None => None,
        },
        None => None,
    }
}

/// The hardware name in `raw`: the text in its parentheses, or else `raw`
/// without `prefix`, trimmed.
pub fn extract_hardware_name(raw_name: &str, prefix: &str) -> (r: String)
    requires
        parens_in_order(raw_name@),
    ensures
        r@ == hardware_name(raw_name@, prefix@),
{
    match paren_text(raw_name) {
        Some(inner) => inner,
        None => {
            let p = chars_of(prefix);
            let removed = remove_pattern(raw_name, &p);
            let rc = chars_of(removed.as_str());
            let (a, b) = trim_bounds(&rc);
            substring(removed.as_str(), a, b)
        },
    }
}

/// The hardware name in an English `raw`: the text in its parentheses, or else `raw`.
pub fn extract_hardware_name_english(raw_name: &str, _prefix: &str) -> (r: String)
    requires
        parens_in_order(raw_name@),
    ensures
        r@ == hardware_name_english(raw_name@),
{
    match paren_text(raw_name) {
        Some(inner) => inner,
        None => String::from_str(raw_name),
    }
}

/// Whether `s` contains the literal `p`.
fn has_word(s: &Vec<char>, p: &str) -> (r: bool)
    ensures
        r == has_substring(s@, p@),
{
    let pc = chars_of(p);
    contains_chars(s, &pc)
}

/// The kind and display name of the device named `raw_name`, given the
/// lowercase forms `name_lower` of its name and `id_lower` of its id; `None`
/// where naming it is not defined (its hardware name would be taken between
/// parentheses out of order).
pub fn device_info_from_lowercase(raw_name: &str, name_lower: &str, id_lower: &str) -> (r: Option<
    (String, String),
>)
    ensures
        r is Some <==> (kind_word_in(name_lower@) ==> parens_in_order(raw_name@)),
        r matches Some(p) ==> (p.0@, p.1@) == device_info_lowered(
            name_lower@,
            id_lower@,
            raw_name@,
        ),
{
    let n = chars_of(name_lower);
    let i = chars_of(id_lower);
    let cs = chars_of(raw_name);
    let ordered = match (first_index_of(&cs, '('), last_index_of(&cs, ')')) {
        (Some(a), Some(b)) => a < b,
        _ => true,
    };
    proof {
        raw_name@.index_of_first_ensures('(');
        raw_name@.index_of_last_ensures(')');
        assert(ordered == parens_in_order(raw_name@));
    }
    if has_word(&n, "耳机") {
        if !ordered {
            return None;
        }
        Some((String::from_str("headphones"), extract_hardware_name(raw_name, "耳机")))
    } else if has_word(&n, "扬声器") {
        if !ordered {
            return None;
        }
        Some((String::from_str("speakers"), extract_hardware_name(raw_name, "扬声器")))
    } else if has_word(&n, "headphone") {
        if !ordered {
            return None;
        }
        Some((String::from_str("headphones"), extract_hardware_name_english(raw_name, "headphone")))
    } else if has_word(&n, "speaker") {
        if !ordered {
            return None;
        }
        Some((String::from_str("speakers"), extract_hardware_name_english(raw_name, "speaker")))
    } else if has_word(&n, "hdmi") || has_word(&i, "hdmi") {
        Some((String::from_str("hdmi"), String::from_str(raw_name)))
    } else if has_word(&n, "bluetooth") || has_word(&n, "蓝牙") {
        Some((String::from_str("bluetooth"), String::from_str(raw_name)))
    } else {
        Some((String::from_str("speakers"), String::from_str(raw_name)))
    }
}

/// The kind and display name of a device, or `None` where naming it is not
/// defined (its hardware name would be taken between parentheses out of order).
pub fn try_parse_device_info(id: &str, raw_name: &str) -> (r: Option<(String, String)>)
    ensures
        r is Some <==> device_info_defined(raw_name@),
        r matches Some(p) ==> (p.0@, p.1@) == device_info(id@, raw_name@),
{
    let name_lower = to_lowercase(raw_name);
    let id_lower = to_lowercase(id);
    device_info_from_lowercase(raw_name, name_lower.as_str(), id_lower.as_str())
}

/// The kind and display name of the device with system id `id` and raw name `raw_name`.
pub fn parse_device_info(id: &str, raw_name: &str) -> (r: (String, String))
    requires
        device_info_defined(raw_name@),
    ensures
        (r.0@, r.1@) == device_info(id@, raw_name@),
{
    match try_parse_device_info(id, raw_name) {
        Some(p) => p,
        None => {
            proof {
                assert(false);
            }
            (String::new(), String::new())
        },
    }
}

/// Reads the device lists and switches the default device through the audio cmdlets.
pub struct AudioDeviceManager {}

impl AudioDeviceManager {
    pub fn new() -> (r: Self) {
        AudioDeviceManager {}
    }

    /// Whether the module listing `listing` shows the cmdlet module installed.
    pub fn is_module_installed(listing: &str) -> (r: bool)
        ensures
            r == has_substring(listing@, module_name()),
    {
        let lc = chars_of(listing);
        has_word(&lc, "AudioDeviceCmdlets")
    }

    /// The devices in the cmdlet listing `listing` (lines `id|name`), or `None`
    /// where naming one of them is not defined.
    pub fn devices_from_listing(&self, listing: &str) -> (r: Option<Vec<Device>>)
        ensures
            r is Some <==> listing_defined(line_pieces(listing@)),
            r matches Some(v) ==> v@.map_values(|d: Device| d@) == listing_devices(
                line_pieces(listing@),
            ),
    {
        let lines = split_lines(listing);
        let ghost pieces = line_pieces(listing@);
        let mut devices: Vec<Device> = Vec::new();
        let banner = chars_of("Active code page:");
        let mut k: usize = 0;
        while k < lines.len()
            invariant
                lines@.map_values(|x: String| x@) == pieces,
                pieces == line_pieces(listing@),
                banner@ == code_page_banner(),
                k <= lines@.len(),
                listing_defined(pieces.take(k as int)),
                devices@.map_values(|d: Device| d@) == listing_devices(pieces.take(k as int)),
            decreases lines@.len() - k,
        {
            let lc = chars_of(lines[k].as_str());
            let (a, b) = trim_bounds(&lc);
            let line = substring(lines[k].as_str(), a, b);
            let tc = chars_of(line.as_str());
            let ghost t = trimmed(pieces[k as int]);
            assert(pieces[k as int] == lines@[k as int]@);
            assert(line@ == t);
            assert(pieces.take(k + 1).drop_last() =~= pieces.take(k as int));
            assert(pieces.take(k + 1).last() == pieces[k as int]);
            let ghost before = devices@.map_values(|d: Device| d@);
            if tc.len() != 0 && !starts_with_chars(&tc, &banner) {
                proof {
                    tc@.index_of_first_ensures('|');
                }
                match first_index_of(&tc, '|') {
                    Some(bar) => {
                        let id = substring(line.as_str(), 0, bar);
                        let raw = substring(line.as_str(), bar + 1, tc.len());
                        assert(id@ =~= t.take(bar as int));
                        assert(raw@ =~= t.skip(bar + 1));
                        match try_parse_device_info(id.as_str(), raw.as_str()) {
                            Some((device_type, name)) => {
                                devices.push(
                                    Device { id, name, device_type, category: DeviceCategory::Audio },
                                );
                                assert(devices@.map_values(|d: Device| d@) =~= before.push(
                                    entry_device(t.take(bar as int), t.skip(bar + 1)),
                                ));
                            },
                            None => {
                                assert(t.index_of_first('|') == Some(bar as int));
                                assert(listing_entry(t) == Some((t.take(bar as int), t.skip(bar + 1))));
                                assert(!device_info_defined(t.skip(bar + 1)));
                                assert(!(match listing_entry(trimmed(pieces[k as int])) {
                                    Some(e) => device_info_defined(e.1),
                                    None => true,
                                }));
                                assert(pieces.len() == lines@.len());
                                assert(!listing_defined(pieces));
                                return None;
                            },
                        }
                    },
                    None => {},
                }
            }
            assert forall|j: int| 0 <= j < k + 1 implies match #[trigger] listing_entry(
                trimmed(pieces.take(k + 1)[j]),
            ) {
                Some(e) => device_info_defined(e.1),
                None => true,
            } by {
                if j < k {
                    assert(pieces.take(k + 1)[j] == pieces.take(k as int)[j]);
                }
            }
            k = k + 1;
        }
        assert(pieces.take(lines@.len() as int) =~= pieces);
        Some(devices)
    }
}

/// Every device gets one of the four kinds.
pub proof fn lemma_device_kinds(id: Seq<char>, raw: Seq<char>)
    ensures
        ({
            let kind = device_info(id, raw).0;
            ||| kind == "headphones"@
            ||| kind == "speakers"@
            ||| kind == "hdmi"@
            ||| kind == "bluetooth"@
        }),
{
}

/// A device whose name has a kind word and its parentheses in order is shown
/// by what is between the parentheses.
pub proof fn lemma_name_in_parentheses(id: Seq<char>, raw: Seq<char>)
    requires
        names_hardware(raw),
        paren_inner(raw) is Some,
    ensures
        device_info(id, raw).1 == paren_inner(raw)->0,
{
}

/// A device whose name has no kind word keeps its name as it is.
pub proof fn lemma_plain_name_kept(id: Seq<char>, raw: Seq<char>)
    requires
        !names_hardware(raw),
    ensures
        device_info(id, raw).1 == raw,
{
}

/// The kind of a device is read from its lowercased name `n` and id `i` as
/// the words they hold say: it is `hdmi` only where `n` or `i` holds "hdmi",
/// `bluetooth` only where `n` holds "bluetooth" or "蓝牙", `headphones` only
/// where `n` holds "耳机" or "headphone" (and `speakers` never where `n` holds
/// "耳机"), and a device whose name holds none of
/// the kind words and whose id holds no "hdmi" is `speakers`, shown by its
/// raw name.
pub proof fn lemma_kind_words(n: Seq<char>, i: Seq<char>, raw: Seq<char>)
    ensures
        device_info_lowered(n, i, raw).0 == "hdmi"@ ==> has_substring(n, "hdmi"@)
            || has_substring(i, "hdmi"@),
        device_info_lowered(n, i, raw).0 == "bluetooth"@ ==> has_substring(n, "bluetooth"@)
            || has_substring(n, "蓝牙"@),
        device_info_lowered(n, i, raw).0 == "headphones"@ ==> has_substring(n, "耳机"@)
            || has_substring(n, "headphone"@),
        device_info_lowered(n, i, raw).0 == "speakers"@ ==> !has_substring(n, "耳机"@) && (
        has_substring(n, "扬声器"@) || !has_substring(n, "headphone"@)),
        (!has_substring(n, "耳机"@) && !has_substring(n, "扬声器"@) && !has_substring(
            n,
            "headphone"@,
        ) && !has_substring(n, "speaker"@) && !has_substring(n, "hdmi"@) && !has_substring(
            n,
            "bluetooth"@,
        ) && !has_substring(n, "蓝牙"@) && !has_substring(i, "hdmi"@)) ==> device_info_lowered(
            n,
            i,
            raw,
        ) == ("speakers"@, raw),
{
    reveal_strlit("hdmi");
    reveal_strlit("bluetooth");
    reveal_strlit("headphones");
    reveal_strlit("speakers");
    assert("hdmi"@.len() == 4);
    assert("bluetooth"@.len() == 9);
    assert("headphones"@.len() == 10);
    assert("speakers"@.len() == 8);
}

/// The kind words are looked for in the lowercased name and id: a device is
/// of kind `hdmi` only where its name or id, lowercased, holds "hdmi", and a
/// device whose lowercased name holds no kind word and whose lowercased id
/// holds no "hdmi" is of kind `speakers` under its raw name.
pub proof fn lemma_device_kind_words(id: Seq<char>, raw: Seq<char>)
    ensures
        device_info(id, raw).0 == "hdmi"@ ==> has_substring(lowercase(raw), "hdmi"@)
            || has_substring(lowercase(id), "hdmi"@),
        (!has_substring(lowercase(raw), "耳机"@) && !has_substring(lowercase(raw), "扬声器"@)
            && !has_substring(lowercase(raw), "headphone"@) && !has_substring(
            lowercase(raw),
            "speaker"@,
        ) && !has_substring(lowercase(raw), "hdmi"@) && !has_substring(
            lowercase(raw),
            "bluetooth"@,
        ) && !has_substring(lowercase(raw), "蓝牙"@) && !has_substring(lowercase(id), "hdmi"@))
            ==> device_info(id, raw) == ("speakers"@, raw),
{
    lemma_kind_words(lowercase(raw), lowercase(id), raw);
}

} // verus!
