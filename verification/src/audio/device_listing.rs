//! Building the list of output devices from what the sound system reports:
//! the device hints of ALSA, and the card and PCM tables of the kernel.
//!
//! The caller reads the tables and hands in their lines; a device is seen
//! here through its view `(id, name, is_default, is_current)`.

use vstd::prelude::*;

use crate::audio::devices::{spec_is_real_hardware_id, should_list_linux_output_device, OutputDeviceInfo};
use crate::text::{
    after_char, after_char_exec, ascii_lower, before_char, before_char_exec, before_sub,
    before_sub_exec, chars_eq, chars_of, concat, contains_chars, contains_sub, decimal,
    decimal_chars, parse_u32, parse_u32_chars, string_of, trim, trim_chars, trim_start,
    trim_start_chars,
};

verus! {

/// A sound card as the kernel's card table lists it.
#[derive(Clone, Debug)]
pub struct ProcAsoundCard {
    pub index: u32,
    pub id: String,
    pub name: String,
    pub long_name: String,
}

/// A device as `(id, name, is_default, is_current)`.
pub type DeviceView = (Seq<char>, Seq<char>, bool, bool);

pub open spec fn device_view(d: OutputDeviceInfo) -> DeviceView {
    (d.id@, d.name@, d.is_default, d.is_current)
}

pub open spec fn devices_view(s: Seq<OutputDeviceInfo>) -> Seq<DeviceView> {
    Seq::new(s.len(), |i: int| device_view(s[i]))
}

/// `Some(x)` holds exactly `id`.
pub open spec fn is_id(x: Option<&str>, id: Seq<char>) -> bool {
    match x {
        Some(v) => v@ == id,
        None => false,
    }
}

fn is_id_exec(x: Option<&str>, id: &[char]) -> (res: bool)
    ensures
        res == is_id(x, id@),
{
    match x {
        Some(v) => chars_eq(&chars_of(v), id),
        None => false,
    }
}

/// The first device of `devs` with id `id`.
pub open spec fn first_device_with_id(devs: Seq<DeviceView>, id: Seq<char>, j: int) -> bool {
    0 <= j < devs.len() && devs[j].0 == id && forall|k: int| 0 <= k < j ==> devs[k].0 != id
}

/// Whether some device of `devs` has id `id`.
pub open spec fn has_device(devs: Seq<DeviceView>, id: Seq<char>) -> bool {
    exists|j: int| 0 <= j < devs.len() && #[trigger] devs[j].0 == id
}

fn find_device(devices: &Vec<OutputDeviceInfo>, id: &[char]) -> (res: Option<usize>)
    ensures
        res matches Some(j) ==> first_device_with_id(devices_view(devices@), id@, j as int),
        res is None ==> !has_device(devices_view(devices@), id@),
{
    let ghost v = devices_view(devices@);
    let mut j: usize = 0;
    while j < devices.len()
        invariant
            j <= devices@.len(),
            v == devices_view(devices@),
            forall|k: int| 0 <= k < j ==> v[k].0 != id@,
        decreases devices@.len() - j,
    {
        if chars_eq(&chars_of(devices[j].id.as_str()), id) {
            return Some(j);
        }
        j = j + 1;
    }
    assert forall|k: int| 0 <= k < v.len() implies #[trigger] v[k].0 != id@ by {}
    None
}

/// An output device reported by the audio host, as it is listed: none for
/// a device that is not real hardware; otherwise flagged default when it is
/// the default device, and current when it is the requested device (or,
/// with none requested, when it is the default).
pub fn listed_device(id: &str, name: &str, default_id: Option<&str>, requested_id: Option<&str>) -> (res: Option<OutputDeviceInfo>)
    ensures
        res is Some == spec_is_real_hardware_id(ascii_lower(trim(id@))),
        res matches Some(d) ==> d.id@ == id@ && d.name@ == name@ && d.is_default == is_id(default_id, id@)
            && d.is_current == (match requested_id {
            Some(r) => r@ == id@,
            None => is_id(default_id, id@),
        }),
{
    if !should_list_linux_output_device(id, default_id, requested_id) {
        return None;
    }
    let idc = chars_of(id);
    let is_default = is_id_exec(default_id, &idc);
    let is_current = match requested_id {
        Some(r) => chars_eq(&chars_of(r), &idc),
        None => is_default,
    };
    Some(OutputDeviceInfo { id: id.to_string(), name: name.to_string(), is_default, is_current })
}

/// The first line of a hint description, trimmed; `None` when that is empty.
pub open spec fn hint_name(desc: Option<Seq<char>>) -> Option<Seq<char>> {
    match desc {
        Some(d) => {
            let l = trim(before_char(d, '\n'));
            if l.len() > 0 {
                Some(l)
            } else {
                None
            }
        },
        None => None,
    }
}

/// The device list after one ALSA hint: a hint naming a real hardware
/// device that is not listed yet is appended, named by the first line of
/// its description (or its id), and flagged default or current when its
/// id is that of the default or current device.
pub open spec fn apply_hint(
    devs: Seq<DeviceView>,
    hint: (Option<Seq<char>>, Option<Seq<char>>),
    default_id: Option<&str>,
    current_id: Option<&str>,
) -> Seq<DeviceView> {
    match hint.0 {
        None => devs,
        Some(id) => if !spec_is_real_hardware_id(ascii_lower(trim(id))) || has_device(devs, id) {
            devs
        } else {
            let name = match hint_name(hint.1) {
                Some(n) => n,
                None => id,
            };
            devs.push((id, name, is_id(default_id, id), is_id(current_id, id)))
        },
    }
}

pub open spec fn opt_view(o: Option<String>) -> Option<Seq<char>> {
    match o {
        Some(s) => Some(s@),
        None => None,
    }
}

/// The device list after the hints `hints`, in order.
pub open spec fn apply_hints(
    devs: Seq<DeviceView>,
    hints: Seq<(Option<String>, Option<String>)>,
    default_id: Option<&str>,
    current_id: Option<&str>,
) -> Seq<DeviceView>
    decreases hints.len(),
{
    if hints.len() == 0 {
        devs
    } else {
        apply_hints(
            apply_hint(devs, (opt_view(hints[0].0), opt_view(hints[0].1)), default_id, current_id),
            hints.drop_first(),
            default_id,
            current_id,
        )
    }
}

/// Adds the real hardware devices among the ALSA hints, each given as
/// `(name, description)`, that are not listed yet (see `apply_hint`).
pub fn append_linux_alsa_hint_output_devices(
    devices: &mut Vec<OutputDeviceInfo>,
    hints: &[(Option<String>, Option<String>)],
    default_id: Option<&str>,
    current_id: Option<&str>,
)
    ensures
        devices_view(final(devices)@) == apply_hints(devices_view(old(devices)@), hints@, default_id, current_id),
{
    let ghost target = apply_hints(devices_view(devices@), hints@, default_id, current_id);
    let mut k: usize = 0;
    assert(hints@.skip(0) == hints@);
    while k < hints.len()
        invariant
            k <= hints@.len(),
            apply_hints(devices_view(devices@), hints@.skip(k as int), default_id, current_id) == target,
        decreases hints@.len() - k,
    {
        let ghost before = devices_view(devices@);
        let ghost rest = hints@.skip(k as int);
        assert(rest[0] == hints@[k as int]);
        assert(rest.drop_first() == hints@.skip(k + 1));
        let (hint_id, hint_desc) = &hints[k];
        match hint_id {
            None => {},
            Some(id_string) => {
                let id = chars_of(id_string.as_str());
                if should_list_linux_output_device(id_string.as_str(), default_id, current_id) {
                    if find_device(devices, &id).is_none() {
                        let name = match hint_desc {
                            Some(d) => {
                                let l = trim_chars(&before_char_exec(&chars_of(d.as_str()), '\n'));
                                if l.len() > 0 {
                                    l
                                } else {
                                    concat(&id, &[])
                                }
                            },
                            None => concat(&id, &[]),
                        };
                        let dev = OutputDeviceInfo {
                            is_default: is_id_exec(default_id, &id),
                            is_current: is_id_exec(current_id, &id),
                            id: string_of(&id),
                            name: string_of(&name),
                        };
                        devices.push(dev);
                        assert(devices_view(devices@) == before.push(device_view(dev)));
                    }
                }
            },
        }
        k = k + 1;
    }
}

/// A card table header line: `index [id]: driver - name`, as
/// `(index, id, name)`; the id is trimmed and must not be empty, and the
/// name is what follows the first `-` after the colon, trimmed (or the
/// whole part after the colon when it has no `-`).
pub open spec fn spec_card_header(line: Seq<char>) -> Option<(u32, Seq<char>, Seq<char>)> {
    let t = trim_start(line);
    match after_char(t, ' ') {
        None => None,
        Some(rest) => match parse_u32(before_char(t, ' ')) {
            None => None,
            Some(index) => match after_char(rest, '[') {
                None => None,
                Some(r1) => match after_char(r1, ']') {
                    None => None,
                    Some(r2) => match after_char(r2, ':') {
                        None => None,
                        Some(name_part) => {
                            let id = trim(before_char(r1, ']'));
                            let name = match after_char(name_part, '-') {
                                Some(v) => trim(v),
                                None => trim(name_part),
                            };
                            if id.len() == 0 {
                                None
                            } else {
                                Some((index, id, name))
                            }
                        },
                    },
                },
            },
        },
    }
}

/// Reads a card table header line (see `spec_card_header`); the long name
/// is left empty.
pub fn parse_proc_asound_card_header(line: &str) -> (res: Option<ProcAsoundCard>)
    ensures
        res is Some == spec_card_header(line@) is Some,
        res matches Some(c) ==> spec_card_header(line@) == Some((c.index, c.id@, c.name@)) && c.long_name@
            == Seq::<char>::empty(),
{
    let t = trim_start_chars(&chars_of(line));
    let rest = match after_char_exec(&t, ' ') {
        None => {
            return None;
        },
        Some(r) => r,
    };
    let index = match parse_u32_chars(&before_char_exec(&t, ' ')) {
        None => {
            return None;
        },
        Some(i) => i,
    };
    let r1 = match after_char_exec(&rest, '[') {
        None => {
            return None;
        },
        Some(r) => r,
    };
    let r2 = match after_char_exec(&r1, ']') {
        None => {
            return None;
        },
        Some(r) => r,
    };
    let name_part = match after_char_exec(&r2, ':') {
        None => {
            return None;
        },
        Some(r) => r,
    };
    let id = trim_chars(&before_char_exec(&r1, ']'));
    let name = match after_char_exec(&name_part, '-') {
        Some(v) => trim_chars(&v),
        None => trim_chars(&name_part),
    };
    if id.len() == 0 {
        return None;
    }
    Some(ProcAsoundCard { index, id: string_of(&id), name: string_of(&name), long_name: String::new() })
}

/// A card as `(index, id, name, long name)`.
pub open spec fn card_view(c: ProcAsoundCard) -> (u32, Seq<char>, Seq<char>, Seq<char>) {
    (c.index, c.id@, c.name@, c.long_name@)
}

pub open spec fn cards_view(s: Seq<ProcAsoundCard>) -> Seq<(u32, Seq<char>, Seq<char>, Seq<char>)> {
    Seq::new(s.len(), |i: int| card_view(s[i]))
}

/// The cards of the card table, given as lines: each header line that
/// reads as a card is followed by its long name, the next line trimmed.
pub open spec fn spec_cards(lines: Seq<String>) -> Seq<(u32, Seq<char>, Seq<char>, Seq<char>)>
    decreases lines.len(),
{
    if lines.len() == 0 {
        Seq::empty()
    } else {
        match spec_card_header(lines[0]@) {
            None => spec_cards(lines.drop_first()),
            Some(h) => if lines.len() >= 2 {
                seq![(h.0, h.1, h.2, trim(lines[1]@))] + spec_cards(lines.skip(2))
            } else {
                seq![(h.0, h.1, h.2, Seq::<char>::empty())]
            },
        }
    }
}

/// Reads the cards of the card table (see `spec_cards`).
pub fn parse_proc_asound_cards(lines: &[String]) -> (res: Vec<ProcAsoundCard>)
    ensures
        cards_view(res@) == spec_cards(lines@),
{
    let mut res: Vec<ProcAsoundCard> = Vec::new();
    let mut k: usize = 0;
    assert(lines@.skip(0) == lines@);
    while k < lines.len()
        invariant
            k <= lines@.len(),
            cards_view(res@) + spec_cards(lines@.skip(k as int)) == spec_cards(lines@),
        decreases lines@.len() - k,
    {
        let ghost rest = lines@.skip(k as int);
        assert(rest[0] == lines@[k as int]);
        assert(rest.drop_first() == lines@.skip(k + 1));
        match parse_proc_asound_card_header(lines[k].as_str()) {
            None => {
                k = k + 1;
            },
            Some(card) => {
                let ghost before = cards_view(res@);
                if k + 1 < lines.len() {
                    assert(rest[1] == lines@[k + 1]);
                    assert(rest.skip(2) == lines@.skip(k + 2));
                    let long = trim_chars(&chars_of(lines[k + 1].as_str()));
                    let c = ProcAsoundCard { long_name: string_of(&long), ..card };
                    res.push(c);
                    assert(cards_view(res@) == before.push(card_view(c)));
                    assert(before.push(card_view(c)) + spec_cards(lines@.skip(k + 2)) == before + (seq![
                        card_view(c),
                    ] + spec_cards(lines@.skip(k + 2))));
                    k = k + 2;
                } else {
                    let c = ProcAsoundCard { long_name: String::new(), ..card };
                    res.push(c);
                    assert(cards_view(res@) == before.push(card_view(c)));
                    assert(lines@.skip(k + 1).len() == 0);
                    k = k + 1;
                }
            },
        }
    }
    assert(lines@.skip(k as int).len() == 0);
    assert(cards_view(res@) + Seq::<(u32, Seq<char>, Seq<char>, Seq<char>)>::empty() == cards_view(res@));
    res
}

pub open spec fn lit_at() -> Seq<char> {
    seq![' ', 'a', 't', ' ']
}

/// The name a card is shown with: its long name, trimmed, up to ` at `
/// (trimmed again), or its short name when the long name is empty.
pub open spec fn spec_display_name(c: (u32, Seq<char>, Seq<char>, Seq<char>)) -> Seq<char> {
    let l = trim(c.3);
    if l.len() > 0 {
        trim(before_sub(l, lit_at()))
    } else {
        c.2
    }
}

impl ProcAsoundCard {
    /// The name the card is shown with (see `spec_display_name`).
    pub fn display_name(&self) -> (res: Vec<char>)
        ensures
            res@ == spec_display_name(card_view(*self)),
    {
        let l = trim_chars(&chars_of(self.long_name.as_str()));
        if l.len() > 0 {
            let at = vec![' ', 'a', 't', ' '];
            assert(at@ == lit_at());
            trim_chars(&before_sub_exec(&l, &at))
        } else {
            chars_of(self.name.as_str())
        }
    }
}

pub open spec fn lit_playback() -> Seq<char> {
    seq!['p', 'l', 'a', 'y', 'b', 'a', 'c', 'k']
}

pub open spec fn lit_pcm() -> Seq<char> {
    seq!['P', 'C', 'M']
}

/// A PCM table line `CC-DD: id : name : playback N ...` of a playback
/// device, as `(card, device, name)`: the name is the part before the next
/// colon, trimmed, or `PCM` when that is empty.
pub open spec fn spec_pcm_line(line: Seq<char>) -> Option<(u32, u32, Seq<char>)> {
    if !contains_sub(line, lit_playback()) {
        None
    } else {
        match after_char(line, ':') {
            None => None,
            Some(rest) => {
                let address = trim(before_char(line, ':'));
                match after_char(address, '-') {
                    None => None,
                    Some(dev_text) => match (parse_u32(before_char(address, '-')), parse_u32(dev_text)) {
                        (Some(c), Some(d)) => {
                            let seg = trim(before_char(rest, ':'));
                            Some((c, d, if seg.len() > 0 {
                                seg
                            } else {
                                lit_pcm()
                            }))
                        },
                        _ => None,
                    },
                }
            },
        }
    }
}

/// Reads a PCM table line (see `spec_pcm_line`).
pub fn parse_proc_asound_playback_pcm_line(line: &str) -> (res: Option<(u32, u32, Vec<char>)>)
    ensures
        res is Some == spec_pcm_line(line@) is Some,
        res matches Some(r) ==> spec_pcm_line(line@) == Some((r.0, r.1, r.2@)),
{
    let l = chars_of(line);
    let playback = vec!['p', 'l', 'a', 'y', 'b', 'a', 'c', 'k'];
    assert(playback@ == lit_playback());
    if !contains_chars(&l, &playback) {
        return None;
    }
    let rest = match after_char_exec(&l, ':') {
        None => {
            return None;
        },
        Some(r) => r,
    };
    let address = trim_chars(&before_char_exec(&l, ':'));
    let dev_text = match after_char_exec(&address, '-') {
        None => {
            return None;
        },
        Some(d) => d,
    };
    let card = match parse_u32_chars(&before_char_exec(&address, '-')) {
        None => {
            return None;
        },
        Some(c) => c,
    };
    let device = match parse_u32_chars(&dev_text) {
        None => {
            return None;
        },
        Some(d) => d,
    };
    let seg = trim_chars(&before_char_exec(&rest, ':'));
    let name = if seg.len() > 0 {
        seg
    } else {
        let p = vec!['P', 'C', 'M'];
        assert(p@ == lit_pcm());
        p
    };
    Some((card, device, name))
}

/// The first card of `cards` with number `index`.
pub open spec fn first_card_at(cards: Seq<(u32, Seq<char>, Seq<char>, Seq<char>)>, index: u32, j: int) -> bool {
    0 <= j < cards.len() && cards[j].0 == index && forall|k: int| 0 <= k < j ==> cards[k].0 != index
}

/// The device list after one PCM table line: a playback device of a known
/// card is named `card - pcm` and listed as `hw:CARD=c,DEV=d`.  A device
/// already listed under that id keeps its name unless the name is its id
/// or blank, and gains the default and current flags when its id is that
/// of the default or current device; otherwise the device is appended.
pub open spec fn apply_pcm_line(
    devs: Seq<DeviceView>,
    cards: Seq<(u32, Seq<char>, Seq<char>, Seq<char>)>,
    line: Seq<char>,
    default_id: Option<&str>,
    current_id: Option<&str>,
) -> Seq<DeviceView> {
    match spec_pcm_line(line) {
        None => devs,
        Some((ci, di, pcm)) => if !(exists|j: int| first_card_at(cards, ci, j)) {
            devs
        } else {
            let card = cards[choose|j: int| first_card_at(cards, ci, j)];
            let id = seq!['h', 'w', ':', 'C', 'A', 'R', 'D', '='] + decimal(card.0 as nat) + seq![
                ',',
                'D',
                'E',
                'V',
                '=',
            ] + decimal(di as nat);
            let name = spec_display_name(card) + seq![' ', '-', ' '] + pcm;
            if has_device(devs, id) {
                let j = choose|j: int| first_device_with_id(devs, id, j);
                let d = devs[j];
                devs.update(
                    j,
                    (
                        d.0,
                        if d.1 == d.0 || trim(d.1).len() == 0 {
                            name
                        } else {
                            d.1
                        },
                        d.2 || is_id(default_id, id),
                        d.3 || is_id(current_id, id),
                    ),
                )
            } else {
                devs.push((id, name, is_id(default_id, id), is_id(current_id, id)))
            }
        },
    }
}

/// The device list after the PCM table lines `lines`, in order.
pub open spec fn apply_pcm_lines(
    devs: Seq<DeviceView>,
    cards: Seq<(u32, Seq<char>, Seq<char>, Seq<char>)>,
    lines: Seq<String>,
    default_id: Option<&str>,
    current_id: Option<&str>,
) -> Seq<DeviceView>
    decreases lines.len(),
{
    if lines.len() == 0 {
        devs
    } else {
        apply_pcm_lines(
            apply_pcm_line(devs, cards, lines[0]@, default_id, current_id),
            cards,
            lines.drop_first(),
            default_id,
            current_id,
        )
    }
}

fn find_card(cards: &[ProcAsoundCard], index: u32) -> (res: Option<usize>)
    ensures
        res matches Some(j) ==> first_card_at(cards_view(cards@), index, j as int),
        res is None ==> !(exists|j: int| first_card_at(cards_view(cards@), index, j)),
{
    let ghost v = cards_view(cards@);
    let mut j: usize = 0;
    while j < cards.len()
        invariant
            j <= cards@.len(),
            v == cards_view(cards@),
            forall|k: int| 0 <= k < j ==> v[k].0 != index,
        decreases cards@.len() - j,
    {
        if cards[j].index == index {
            return Some(j);
        }
        j = j + 1;
    }
    None
}

/// Lists the playback devices of the kernel's PCM table for the cards of
/// its card table (see `apply_pcm_line`).
pub fn append_linux_proc_asound_output_devices_at(
    devices: &mut Vec<OutputDeviceInfo>,
    default_id: Option<&str>,
    current_id: Option<&str>,
    cards: &[ProcAsoundCard],
    pcm_lines: &[String],
)
    ensures
        devices_view(final(devices)@) == apply_pcm_lines(
            devices_view(old(devices)@),
            cards_view(cards@),
            pcm_lines@,
            default_id,
            current_id,
        ),
{
    let ghost cv = cards_view(cards@);
    let ghost target = apply_pcm_lines(devices_view(devices@), cv, pcm_lines@, default_id, current_id);
    let mut k: usize = 0;
    assert(pcm_lines@.skip(0) == pcm_lines@);
    while k < pcm_lines.len()
        invariant
            k <= pcm_lines@.len(),
            cv == cards_view(cards@),
            apply_pcm_lines(devices_view(devices@), cv, pcm_lines@.skip(k as int), default_id, current_id)
                == target,
        decreases pcm_lines@.len() - k,
    {
        let ghost before = devices_view(devices@);
        let ghost rest = pcm_lines@.skip(k as int);
        assert(rest[0] == pcm_lines@[k as int]);
        assert(rest.drop_first() == pcm_lines@.skip(k + 1));
        match parse_proc_asound_playback_pcm_line(pcm_lines[k].as_str()) {
            None => {},
            Some((ci, di, pcm)) => {
                match find_card(cards, ci) {
                    None => {},
                    Some(cj) => {
                        proof {
                            let j = choose|j: int| first_card_at(cv, ci, j);
                            assert(first_card_at(cv, ci, j));
                            if j < cj {
                                assert(cv[j].0 == ci);
                            }
                            if j > cj {
                                assert(cv[cj as int].0 == ci);
                            }
                        }
                        let card = &cards[cj];
                        let p1 = vec!['h', 'w', ':', 'C', 'A', 'R', 'D', '='];
                        let p2 = vec![',', 'D', 'E', 'V', '='];
                        let a = concat(&p1, &decimal_chars(card.index as u64));
                        let b = concat(&a, &p2);
                        let id = concat(&b, &decimal_chars(di as u64));
                        let sep = vec![' ', '-', ' '];
                        let name = concat(&concat(&card.display_name(), &sep), &pcm);
                        match find_device(devices, &id) {
                            Some(j) => {
                                proof {
                                    let jj = choose|jj: int| first_device_with_id(before, id@, jj);
                                    assert(first_device_with_id(before, id@, jj));
                                    if jj < j {
                                        assert(before[jj].0 == id@);
                                    }
                                    if jj > j {
                                        assert(before[j as int].0 == id@);
                                    }
                                }
                                let d = &devices[j];
                                let cur_name = chars_of(d.name.as_str());
                                let cur_id = chars_of(d.id.as_str());
                                let new_name = if chars_eq(&cur_name, &cur_id) || trim_chars(&cur_name).len() == 0 {
                                    string_of(&name)
                                } else {
                                    d.name.clone()
                                };
                                let nd = OutputDeviceInfo {
                                    id: d.id.clone(),
                                    name: new_name,
                                    is_default: d.is_default || is_id_exec(default_id, &id),
                                    is_current: d.is_current || is_id_exec(current_id, &id),
                                };
                                devices.set(j, nd);
                                assert(devices_view(devices@) == before.update(j as int, device_view(nd)));
                            },
                            None => {
                                let nd = OutputDeviceInfo {
                                    is_default: is_id_exec(default_id, &id),
                                    is_current: is_id_exec(current_id, &id),
                                    id: string_of(&id),
                                    name: string_of(&name),
                                };
                                devices.push(nd);
                                assert(devices_view(devices@) == before.push(device_view(nd)));
                            },
                        }
                    },
                }
            },
        }
        k = k + 1;
    }
}

} // verus!
