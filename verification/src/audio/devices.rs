//! Output devices: which ALSA device ids name real hardware, how named
//! card ids are resolved to card numbers, how `plughw:` twins of `hw:`
//! devices are collapsed, and how equal device names are told apart.
//!
//! The card directory of the sound system (`cardN/id` files) is read by the
//! caller and handed in as `(file name, contents of its id file)` pairs, in
//! the order the directory lists them.

use vstd::prelude::*;

use crate::text::{
    after_char, after_char_exec, after_sub, after_sub_exec, ascii_lower, before_char,
    before_char_exec, chars_eq, chars_of, concat, decimal, decimal_chars, has_prefix,
    lower_chars, parse_u32, parse_u32_chars, starts_with, string_of, strip_prefix,
    strip_prefix_exec, trim, trim_chars,
};

verus! {

/// An output device as listed to the user.
#[derive(Clone, Debug)]
pub struct OutputDeviceInfo {
    pub id: String,
    pub name: String,
    pub is_default: bool,
    pub is_current: bool,
}

pub open spec fn lit_hw() -> Seq<char> {
    seq!['h', 'w', ':']
}

pub open spec fn lit_plughw() -> Seq<char> {
    seq!['p', 'l', 'u', 'g', 'h', 'w', ':']
}

pub open spec fn lit_alsa() -> Seq<char> {
    seq!['a', 'l', 's', 'a', ':']
}

pub open spec fn lit_alsa_hw() -> Seq<char> {
    seq!['a', 'l', 's', 'a', ':', 'h', 'w', ':']
}

pub open spec fn lit_card_eq() -> Seq<char> {
    seq!['C', 'A', 'R', 'D', '=']
}

pub open spec fn lit_dev_eq() -> Seq<char> {
    seq!['D', 'E', 'V', '=']
}

pub open spec fn lit_card() -> Seq<char> {
    seq!['c', 'a', 'r', 'd']
}

fn hw_chars() -> (res: Vec<char>)
    ensures
        res@ == lit_hw(),
{
    let v = vec!['h', 'w', ':'];
    assert(v@ == lit_hw());
    v
}

fn plughw_chars() -> (res: Vec<char>)
    ensures
        res@ == lit_plughw(),
{
    let v = vec!['p', 'l', 'u', 'g', 'h', 'w', ':'];
    assert(v@ == lit_plughw());
    v
}

fn alsa_chars() -> (res: Vec<char>)
    ensures
        res@ == lit_alsa(),
{
    let v = vec!['a', 'l', 's', 'a', ':'];
    assert(v@ == lit_alsa());
    v
}

fn alsa_hw_chars() -> (res: Vec<char>)
    ensures
        res@ == lit_alsa_hw(),
{
    let v = vec!['a', 'l', 's', 'a', ':', 'h', 'w', ':'];
    assert(v@ == lit_alsa_hw());
    v
}

fn card_eq_chars() -> (res: Vec<char>)
    ensures
        res@ == lit_card_eq(),
{
    let v = vec!['C', 'A', 'R', 'D', '='];
    assert(v@ == lit_card_eq());
    v
}

fn dev_eq_chars() -> (res: Vec<char>)
    ensures
        res@ == lit_dev_eq(),
{
    let v = vec!['D', 'E', 'V', '='];
    assert(v@ == lit_dev_eq());
    v
}

fn card_chars() -> (res: Vec<char>)
    ensures
        res@ == lit_card(),
{
    let v = vec!['c', 'a', 'r', 'd'];
    assert(v@ == lit_card());
    v
}

/// Whether an id, trimmed and lower-cased, names a real ALSA hardware
/// device: it starts with `hw:`, `plughw:` or `alsa:hw:`.
pub open spec fn spec_is_real_hardware_id(id: Seq<char>) -> bool {
    let n = ascii_lower(trim(id));
    has_prefix(n, lit_hw()) || has_prefix(n, lit_plughw()) || has_prefix(n, lit_alsa_hw())
}

/// Whether an id names a real ALSA hardware device (see
/// `spec_is_real_hardware_id`).
pub fn is_linux_real_hardware_output_id(id: &str) -> (res: bool)
    ensures
        res == spec_is_real_hardware_id(id@),
{
    let n = lower_chars(&trim_chars(&chars_of(id)));
    starts_with(&n, &hw_chars()) || starts_with(&n, &plughw_chars()) || starts_with(&n, &alsa_hw_chars())
}

/// Whether a device is listed: only real hardware devices are, whatever the
/// default and the current device are.
pub fn should_list_linux_output_device(id: &str, default_id: Option<&str>, current_id: Option<&str>) -> (res: bool)
    ensures
        res == spec_is_real_hardware_id(ascii_lower(trim(id@))),
{
    let n = string_of(&lower_chars(&trim_chars(&chars_of(id))));
    is_linux_real_hardware_output_id(n.as_str())
}

/// `s` without the prefix `p` when it has it, else `s` itself.
pub open spec fn strip_or_keep(s: Seq<char>, p: Seq<char>) -> Seq<char> {
    match strip_prefix(s, p) {
        Some(r) => r,
        None => s,
    }
}

fn strip_or_keep_exec(s: &[char], p: &[char]) -> (res: Vec<char>)
    ensures
        res@ == strip_or_keep(s@, p@),
{
    match strip_prefix_exec(s, p) {
        Some(r) => r,
        None => concat(s, &[]),
    }
}

/// The card part of a `hw:`/`plughw:` id: trimmed, without `plughw:` or
/// else `hw:`, lower-cased.
pub open spec fn spec_normalize_hw_id(id: Seq<char>) -> Seq<char> {
    let t = trim(id);
    ascii_lower(
        match strip_prefix(t, lit_plughw()) {
            Some(r) => r,
            None => strip_or_keep(t, lit_hw()),
        },
    )
}

/// The card part of a `hw:`/`plughw:` id (see `spec_normalize_hw_id`).
pub fn normalize_linux_hw_id(id: &[char]) -> (res: Vec<char>)
    ensures
        res@ == spec_normalize_hw_id(id@),
{
    let t = trim_chars(id);
    let body = match strip_prefix_exec(&t, &plughw_chars()) {
        Some(r) => r,
        None => strip_or_keep_exec(&t, &hw_chars()),
    };
    lower_chars(&body)
}

/// For an `hw:` device, the card part that a `plughw:` twin would share.
pub open spec fn spec_hw_twin_id(id: Seq<char>) -> Option<Seq<char>> {
    let t = trim(id);
    if has_prefix(ascii_lower(t), lit_hw()) {
        Some(spec_normalize_hw_id(t))
    } else {
        None
    }
}

/// For an `hw:` device, the card part that a `plughw:` twin would share.
pub fn linux_hw_twin_id(id: &[char]) -> (res: Option<Vec<char>>)
    ensures
        res is Some == spec_hw_twin_id(id@) is Some,
        res matches Some(r) ==> spec_hw_twin_id(id@) == Some(r@),
{
    let t = trim_chars(id);
    if !starts_with(&lower_chars(&t), &hw_chars()) {
        return None;
    }
    Some(normalize_linux_hw_id(&t))
}

/// What follows the `hw:` or `plughw:` of an id (after an optional
/// `alsa:`), trimmed; `None` for any other id.
pub open spec fn alsa_body(id: Seq<char>) -> Option<Seq<char>> {
    let a = trim(strip_or_keep(trim(id), lit_alsa()));
    match strip_prefix(a, lit_hw()) {
        Some(r) => Some(trim(r)),
        None => match strip_prefix(a, lit_plughw()) {
            Some(r) => Some(trim(r)),
            None => None,
        },
    }
}

fn alsa_body_exec(id: &[char]) -> (res: Option<Vec<char>>)
    ensures
        res is Some == alsa_body(id@) is Some,
        res matches Some(r) ==> alsa_body(id@) == Some(r@),
{
    let a = trim_chars(&strip_or_keep_exec(&trim_chars(id), &alsa_chars()));
    match strip_prefix_exec(&a, &hw_chars()) {
        Some(r) => Some(trim_chars(&r)),
        None => match strip_prefix_exec(&a, &plughw_chars()) {
            Some(r) => Some(trim_chars(&r)),
            None => None,
        },
    }
}

/// The card of an ALSA id: after `CARD=` when present, else the whole
/// body, up to the first comma, trimmed; `None` when empty or when the id
/// is not an `hw:`/`plughw:` id.
pub open spec fn spec_card_token(id: Seq<char>) -> Option<Seq<char>> {
    match alsa_body(id) {
        None => None,
        Some(b) => {
            let tok = match strip_prefix(b, lit_card_eq()) {
                Some(rest) => trim(before_char(rest, ',')),
                None => trim(before_char(b, ',')),
            };
            if tok.len() > 0 {
                Some(tok)
            } else {
                None
            }
        },
    }
}

/// The card of an ALSA id (see `spec_card_token`).
pub fn extract_alsa_card_token(id: &[char]) -> (res: Option<Vec<char>>)
    ensures
        res is Some == spec_card_token(id@) is Some,
        res matches Some(r) ==> spec_card_token(id@) == Some(r@),
{
    let b = match alsa_body_exec(id) {
        None => {
            return None;
        },
        Some(b) => b,
    };
    let tok = match strip_prefix_exec(&b, &card_eq_chars()) {
        Some(rest) => trim_chars(&before_char_exec(&rest, ',')),
        None => trim_chars(&before_char_exec(&b, ',')),
    };
    if tok.len() > 0 {
        Some(tok)
    } else {
        None
    }
}

/// The device number of an ALSA id: the number after `DEV=` when present,
/// else the second comma-separated field, up to the next comma, trimmed.
pub open spec fn spec_device_token(id: Seq<char>) -> Option<u32> {
    match alsa_body(id) {
        None => None,
        Some(b) => match after_sub(b, lit_dev_eq()) {
            Some(rest) => parse_u32(trim(before_char(rest, ','))),
            None => match after_char(b, ',') {
                Some(r) => parse_u32(trim(before_char(r, ','))),
                None => None,
            },
        },
    }
}

/// The device number of an ALSA id (see `spec_device_token`).
pub fn extract_alsa_device_token(id: &[char]) -> (res: Option<u32>)
    ensures
        res == spec_device_token(id@),
{
    let b = match alsa_body_exec(id) {
        None => {
            return None;
        },
        Some(b) => b,
    };
    match after_sub_exec(&b, &dev_eq_chars()) {
        Some(rest) => parse_u32_chars(&trim_chars(&before_char_exec(&rest, ','))),
        None => match after_char_exec(&b, ',') {
            Some(r) => parse_u32_chars(&trim_chars(&before_char_exec(&r, ','))),
            None => None,
        },
    }
}

/// The card number a card directory entry stands for: its name is `card`
/// followed by the number.
pub open spec fn entry_card_index(name: Seq<char>) -> Option<u32> {
    match strip_prefix(name, lit_card()) {
        Some(r) => parse_u32(r),
        None => None,
    }
}

/// The number of the first card directory entry whose id, trimmed, is
/// `token`.
pub open spec fn lookup_card(entries: Seq<(String, String)>, token: Seq<char>) -> Option<u32>
    decreases entries.len(),
{
    if entries.len() == 0 {
        None
    } else {
        match entry_card_index(entries[0].0@) {
            Some(i) => if trim(entries[0].1@) == token {
                Some(i)
            } else {
                lookup_card(entries.drop_first(), token)
            },
            None => lookup_card(entries.drop_first(), token),
        }
    }
}

fn lookup_card_exec(entries: &[(String, String)], token: &[char]) -> (res: Option<u32>)
    ensures
        res == lookup_card(entries@, token@),
{
    let mut i: usize = 0;
    assert(entries@.skip(0) == entries@);
    while i < entries.len()
        invariant
            i <= entries@.len(),
            lookup_card(entries@, token@) == lookup_card(entries@.skip(i as int), token@),
        decreases entries@.len() - i,
    {
        let ghost rest = entries@.skip(i as int);
        assert(rest[0] == entries@[i as int]);
        assert(rest.drop_first() == entries@.skip(i + 1));
        let name = chars_of(entries[i].0.as_str());
        match strip_prefix_exec(&name, &card_chars()) {
            Some(r) => {
                match parse_u32_chars(&r) {
                    Some(idx) => {
                        let id = trim_chars(&chars_of(entries[i].1.as_str()));
                        if chars_eq(&id, token) {
                            return Some(idx);
                        }
                    },
                    None => {},
                }
            },
            None => {},
        }
        i = i + 1;
    }
    assert(entries@.skip(i as int).len() == 0);
    None
}

/// The card number of an ALSA id: the card token itself when it is a
/// number, else the card directory entry whose id is the token.
pub open spec fn spec_card_index(id: Seq<char>, entries: Seq<(String, String)>) -> Option<u32> {
    match spec_card_token(id) {
        None => None,
        Some(tok) => match parse_u32(tok) {
            Some(n) => Some(n),
            None => lookup_card(entries, tok),
        },
    }
}

/// The card number of an ALSA id (see `spec_card_index`).
pub fn alsa_card_index_from_device_id_at(id: &str, entries: &[(String, String)]) -> (res: Option<u32>)
    ensures
        res == spec_card_index(id@, entries@),
{
    let tok = match extract_alsa_card_token(&chars_of(id)) {
        None => {
            return None;
        },
        Some(t) => t,
    };
    match parse_u32_chars(&tok) {
        Some(n) => Some(n),
        None => lookup_card_exec(entries, &tok),
    }
}

/// The name under which the card of an ALSA id is reserved: `Audio`
/// followed by its number.
pub fn alsa_reservation_name_for_device_id(id: &str, entries: &[(String, String)]) -> (res: Option<String>)
    ensures
        res is Some == spec_card_index(id@, entries@) is Some,
        res matches Some(r) ==> r@ == seq!['A', 'u', 'd', 'i', 'o'] + decimal(
            spec_card_index(id@, entries@)->0 as nat,
        ),
{
    match alsa_card_index_from_device_id_at(id, entries) {
        None => None,
        Some(idx) => {
            let prefix = vec!['A', 'u', 'd', 'i', 'o'];
            let name = concat(&prefix, &decimal_chars(idx as u64));
            Some(string_of(&name))
        },
    }
}

/// An ALSA id with a named card rewritten to the card's number:
/// `hw:CARD=n,DEV=d` (or `plughw:...` for a `plughw:` id), the device
/// number defaulting to 0.  Ids whose card is already a number, has no
/// token, or cannot be found are returned as they are.
pub open spec fn spec_resolve_hw_id(id: Seq<char>, entries: Seq<(String, String)>) -> Seq<char> {
    match spec_card_token(id) {
        None => id,
        Some(tok) => if parse_u32(tok) is Some {
            id
        } else {
            match spec_card_index(id, entries) {
                None => id,
                Some(idx) => {
                    let prefix = if has_prefix(trim(id), lit_plughw()) {
                        seq!['p', 'l', 'u', 'g', 'h', 'w']
                    } else {
                        seq!['h', 'w']
                    };
                    let dev = match spec_device_token(id) {
                        Some(d) => d,
                        None => 0,
                    };
                    prefix + seq![':', 'C', 'A', 'R', 'D', '='] + decimal(idx as nat) + seq![
                        ',',
                        'D',
                        'E',
                        'V',
                        '=',
                    ] + decimal(dev as nat)
                },
            }
        },
    }
}

/// An ALSA id with a named card rewritten to its number (see
/// `spec_resolve_hw_id`).
pub fn resolve_linux_hw_device_id(id: &[char], entries: &[(String, String)]) -> (res: Vec<char>)
    ensures
        res@ == spec_resolve_hw_id(id@, entries@),
{
    let tok = match extract_alsa_card_token(id) {
        None => {
            return concat(id, &[]);
        },
        Some(t) => t,
    };
    if parse_u32_chars(&tok).is_some() {
        return concat(id, &[]);
    }
    let idx = match alsa_card_index_from_device_id_at(string_of(id).as_str(), entries) {
        None => {
            return concat(id, &[]);
        },
        Some(i) => i,
    };
    let prefix = if starts_with(&trim_chars(id), &plughw_chars()) {
        vec!['p', 'l', 'u', 'g', 'h', 'w']
    } else {
        vec!['h', 'w']
    };
    let dev = match extract_alsa_device_token(id) {
        Some(d) => d,
        None => 0,
    };
    let mid = vec![':', 'C', 'A', 'R', 'D', '='];
    let sep = vec![',', 'D', 'E', 'V', '='];
    let r1 = concat(&prefix, &mid);
    let r2 = concat(&r1, &decimal_chars(idx as u64));
    let r3 = concat(&r2, &sep);
    concat(&r3, &decimal_chars(dev as u64))
}

/// The locator to open an ALSA hardware id with: `alsa:hw:...` ids become
/// `hw:...`, `hw:` and `plughw:` ids stay, and named cards are resolved to
/// their numbers; other ids have none.
pub open spec fn spec_plughw_locator(id: Seq<char>, entries: Seq<(String, String)>) -> Option<Seq<char>> {
    match strip_prefix(id, lit_alsa_hw()) {
        Some(r) => Some(spec_resolve_hw_id(lit_hw() + r, entries)),
        None => if has_prefix(id, lit_hw()) || has_prefix(id, lit_plughw()) {
            Some(spec_resolve_hw_id(id, entries))
        } else {
            None
        },
    }
}

/// The locator to open an ALSA hardware id with (see
/// `spec_plughw_locator`).
pub fn linux_plughw_locator(id: &str, entries: &[(String, String)]) -> (res: Option<String>)
    ensures
        res is Some == spec_plughw_locator(id@, entries@) is Some,
        res matches Some(r) ==> spec_plughw_locator(id@, entries@) == Some(r@),
{
    let c = chars_of(id);
    match strip_prefix_exec(&c, &alsa_hw_chars()) {
        Some(r) => {
            let full = concat(&hw_chars(), &r);
            Some(string_of(&resolve_linux_hw_device_id(&full, entries)))
        },
        None => {
            if starts_with(&c, &hw_chars()) || starts_with(&c, &plughw_chars()) {
                Some(string_of(&resolve_linux_hw_device_id(&c, entries)))
            } else {
                None
            }
        },
    }
}


/// A copy of a device entry.
pub fn copy_device(d: &OutputDeviceInfo) -> (res: OutputDeviceInfo)
    ensures
        res == *d,
{
    OutputDeviceInfo { id: d.id.clone(), name: d.name.clone(), is_default: d.is_default, is_current: d.is_current }
}

/// How many devices of `devs` carry the name `name`.
pub open spec fn name_count(devs: Seq<OutputDeviceInfo>, name: Seq<char>) -> nat
    decreases devs.len(),
{
    if devs.len() == 0 {
        0
    } else {
        name_count(devs.drop_last(), name) + if devs.last().name@ == name {
            1nat
        } else {
            0nat
        }
    }
}

/// The name a device is shown with: a name that several devices share gets
/// the device id appended in brackets.
pub open spec fn shown_name(devs: Seq<OutputDeviceInfo>, d: OutputDeviceInfo) -> Seq<char> {
    if name_count(devs, d.name@) > 1 {
        d.name@ + seq![' ', '['] + d.id@ + seq![']']
    } else {
        d.name@
    }
}

fn count_name(devs: &Vec<OutputDeviceInfo>, name: &[char]) -> (res: usize)
    ensures
        res == name_count(devs@, name@),
{
    let mut count: usize = 0;
    let mut j: usize = 0;
    while j < devs.len()
        invariant
            j <= devs@.len(),
            count == name_count(devs@.take(j as int), name@),
            count <= j,
        decreases devs@.len() - j,
    {
        assert(devs@.take(j + 1).drop_last() == devs@.take(j as int));
        if chars_eq(&chars_of(devs[j].name.as_str()), name) {
            count = count + 1;
        }
        j = j + 1;
    }
    assert(devs@.take(devs@.len() as int) == devs@);
    count
}

/// Tells devices with the same name apart: each name that several devices
/// share gets the device id appended, as `name [id]`.  Ids, flags and
/// order are kept.
pub fn disambiguate_output_device_names(devices: &mut Vec<OutputDeviceInfo>)
    ensures
        final(devices)@.len() == old(devices)@.len(),
        forall|i: int|
            0 <= i < old(devices)@.len() ==> {
                &&& #[trigger] final(devices)@[i].id == old(devices)@[i].id
                &&& final(devices)@[i].is_default == old(devices)@[i].is_default
                &&& final(devices)@[i].is_current == old(devices)@[i].is_current
                &&& final(devices)@[i].name@ == shown_name(old(devices)@, old(devices)@[i])
            },
{
    let ghost before = devices@;
    let mut res: Vec<OutputDeviceInfo> = Vec::new();
    let mut i: usize = 0;
    while i < devices.len()
        invariant
            devices@ == before,
            i <= before.len(),
            res@.len() == i,
            forall|k: int|
                0 <= k < i ==> {
                    &&& #[trigger] res@[k].id == before[k].id
                    &&& res@[k].is_default == before[k].is_default
                    &&& res@[k].is_current == before[k].is_current
                    &&& res@[k].name@ == shown_name(before, before[k])
                },
        decreases before.len() - i,
    {
        let d = &devices[i];
        let name = chars_of(d.name.as_str());
        let count = count_name(devices, &name);
        let shown = if count > 1 {
            let open = vec![' ', '['];
            let close = vec![']'];
            let a = concat(&name, &open);
            let b = concat(&a, &chars_of(d.id.as_str()));
            string_of(&concat(&b, &close))
        } else {
            d.name.clone()
        };
        res.push(OutputDeviceInfo { id: d.id.clone(), name: shown, is_default: d.is_default, is_current: d.is_current });
        i = i + 1;
    }
    assert(res@.len() == before.len());
    *devices = res;
    assert forall|k: int| 0 <= k < before.len() implies {
        &&& #[trigger] devices@[k].id == before[k].id
        &&& devices@[k].is_default == before[k].is_default
        &&& devices@[k].is_current == before[k].is_current
        &&& devices@[k].name@ == shown_name(before, before[k])
    } by {
        assert(devices@[k] == res@[k]);
    }
}

/// Some device of `devs` is an `hw:` device whose card part is `n`.
pub open spec fn has_hw_twin(devs: Seq<OutputDeviceInfo>, n: Seq<char>) -> bool {
    exists|j: int| 0 <= j < devs.len() && #[trigger] spec_hw_twin_id(devs[j].id@) == Some(n)
}

/// Whether a device stays listed: a `plughw:` device is dropped when an
/// `hw:` device of the same card is listed too.
pub open spec fn keeps_device(devs: Seq<OutputDeviceInfo>, d: OutputDeviceInfo) -> bool {
    !(has_prefix(ascii_lower(trim(d.id@)), lit_plughw()) && has_hw_twin(devs, spec_normalize_hw_id(d.id@)))
}

/// The devices of `s` that stay listed among `all`, in order.
pub open spec fn kept_devices(all: Seq<OutputDeviceInfo>, s: Seq<OutputDeviceInfo>) -> Seq<OutputDeviceInfo>
    decreases s.len(),
{
    if s.len() == 0 {
        Seq::empty()
    } else {
        let r = kept_devices(all, s.drop_last());
        if keeps_device(all, s.last()) {
            r.push(s.last())
        } else {
            r
        }
    }
}

fn has_hw_twin_exec(devs: &Vec<OutputDeviceInfo>, n: &[char]) -> (res: bool)
    ensures
        res == has_hw_twin(devs@, n@),
{
    let mut j: usize = 0;
    while j < devs.len()
        invariant
            j <= devs@.len(),
            forall|k: int| 0 <= k < j ==> #[trigger] spec_hw_twin_id(devs@[k].id@) != Some(n@),
        decreases devs@.len() - j,
    {
        match linux_hw_twin_id(&chars_of(devs[j].id.as_str())) {
            Some(t) => {
                if chars_eq(&t, n) {
                    assert(spec_hw_twin_id(devs@[j as int].id@) == Some(n@));
                    return true;
                }
            },
            None => {},
        }
        j = j + 1;
    }
    false
}

/// Drops each `plughw:` device whose card is also listed as an `hw:`
/// device; the others stay, in order.
pub fn collapse_linux_duplicate_output_devices(devices: &mut Vec<OutputDeviceInfo>)
    ensures
        final(devices)@ == kept_devices(old(devices)@, old(devices)@),
{
    let ghost before = devices@;
    let mut res: Vec<OutputDeviceInfo> = Vec::new();
    let mut i: usize = 0;
    while i < devices.len()
        invariant
            devices@ == before,
            i <= before.len(),
            res@ == kept_devices(before, before.take(i as int)),
        decreases before.len() - i,
    {
        assert(before.take(i + 1).drop_last() == before.take(i as int));
        assert(before.take(i + 1).last() == before[i as int]);
        let d = &devices[i];
        let id = chars_of(d.id.as_str());
        let is_plug = starts_with(&lower_chars(&trim_chars(&id)), &plughw_chars());
        let keep = if is_plug {
            !has_hw_twin_exec(devices, &normalize_linux_hw_id(&id))
        } else {
            true
        };
        if keep {
            res.push(copy_device(d));
        }
        i = i + 1;
    }
    assert(before.take(before.len() as int) == before);
    *devices = res;
}

} // verus!
