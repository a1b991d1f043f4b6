//! The usbipd commands: reading the device list that the PowerShell module
//! prints, and the arguments of `usbipd bind` and `usbipd unbind`.
use vstd::prelude::*;

use crate::text::{
    is_ws, lemma_lines_concat, lemma_lines_single, lemma_trim_whitespace, lemma_lines_push_line, trim_end, trim_start, chars_of, line_ranges, lines, range_texts, ranges_within, trim, trim_range};
use crate::command_error::{CommandError, USBIPDResult};
use crate::usb_device::{parse_device_spec, UsbDevice, UsbDeviceView};

verus! {

/// The devices found so far and the block of lines of the device being read.
pub open spec fn block_step(
    st: (Seq<UsbDeviceView>, Seq<char>),
    line: Seq<char>,
) -> (Seq<UsbDeviceView>, Seq<char>) {
    let t = trim(line);
    if t.len() == 0 {
        if st.1.len() > 0 {
            (st.0.push(parse_device_spec(st.1)), Seq::<char>::empty())
        } else {
            st
        }
    } else {
        (st.0, st.1 + t + seq!['\n'])
    }
}

/// `st` after each of `ls` in turn.
pub open spec fn block_steps(
    st: (Seq<UsbDeviceView>, Seq<char>),
    ls: Seq<Seq<char>>,
) -> (Seq<UsbDeviceView>, Seq<char>)
    decreases ls.len(),
{
    if ls.len() == 0 {
        st
    } else {
        block_step(block_steps(st, ls.drop_last()), ls.last())
    }
}

/// The devices that `Get-UsbipdDevice` output describes: blank lines (once
/// trimmed) separate the devices; each device is parsed from its trimmed
/// lines, each ended by a line feed.
pub open spec fn parse_device_list_spec(s: Seq<char>) -> Seq<UsbDeviceView> {
    let st = block_steps((Seq::<UsbDeviceView>::empty(), Seq::<char>::empty()), lines(s));
    if st.1.len() > 0 {
        st.0.push(parse_device_spec(st.1))
    } else {
        st.0
    }
}

/// The views of a vector of devices.
pub open spec fn devices_view(v: Seq<UsbDevice>) -> Seq<UsbDeviceView> {
    Seq::new(v.len(), |i: int| v[i]@)
}

/// Reads every device of the output of the devices script.
pub fn parse_device_list(output: &str) -> (r: Vec<UsbDevice>)
    ensures
        devices_view(r@) == parse_device_list_spec(output@),
{
    let v = chars_of(output);
    let ls = line_ranges(&v);
    let mut devices: Vec<UsbDevice> = Vec::new();
    let mut current_block = String::new();
    let ghost texts = range_texts(v@, ls@);
    let ghost init = (Seq::<UsbDeviceView>::empty(), Seq::<char>::empty());
    let mut k: usize = 0;
    assert(texts.take(0) =~= Seq::<Seq<char>>::empty());
    assert(devices_view(devices@) =~= Seq::<UsbDeviceView>::empty());
    proof {
        reveal_strlit("\n");
    }
    while k < ls.len()
        invariant
            v@ == output@,
            texts == range_texts(v@, ls@),
            texts == lines(v@),
            init == (Seq::<UsbDeviceView>::empty(), Seq::<char>::empty()),
            ranges_within(ls@, v.len() as int),
            k <= ls.len(),
            "\n"@ == seq!['\n'],
            (devices_view(devices@), current_block@) == block_steps(init, texts.take(k as int)),
        decreases ls.len() - k,
    {
        let ghost before = (devices_view(devices@), current_block@);
        let (lo, hi) = ls[k];
        assert(texts[k as int] == v@.subrange(lo as int, hi as int));
        assert(texts.take(k + 1).drop_last() =~= texts.take(k as int));
        assert(texts.take(k + 1).last() == texts[k as int]);
        let (a, b) = trim_range(&v, lo, hi);
        if a == b {
            if current_block.as_str().unicode_len() > 0 {
                let device = UsbDevice::parse(current_block.as_str());
                match device {
                    Ok(d) => {
                        let ghost old_devices = devices@;
                        devices.push(d);
                        assert(devices_view(devices@) =~= devices_view(old_devices).push(d@));
                    },
                    Err(_) => {},
                }
                current_block = String::new();
            }
        } else {
            let line = output.substring_char(a, b);
            current_block.append(line);
            current_block.append("\n");
        }
        assert((devices_view(devices@), current_block@) == block_step(before, texts[k as int]));
        k = k + 1;
    }
    assert(texts.take(ls.len() as int) =~= texts);
    if current_block.as_str().unicode_len() > 0 {
        let device = UsbDevice::parse(current_block.as_str());
        match device {
            Ok(d) => {
                let ghost old_devices = devices@;
                devices.push(d);
                assert(devices_view(devices@) =~= devices_view(old_devices).push(d@));
            },
            Err(_) => {},
        }
    }
    devices
}

/// The arguments of `usbipd bind` for the device `hardware_id`, with
/// `--force` where `forced`.
pub open spec fn bind_args_spec(hardware_id: Seq<char>, forced: bool) -> Seq<Seq<char>> {
    let base = seq!["bind"@, "--hardware-id"@, hardware_id];
    if forced {
        base.push("--force"@)
    } else {
        base
    }
}

/// The arguments of `usbipd unbind`: of one device, or of all devices.
pub open spec fn unbind_args_spec(hardware_id: Option<Seq<char>>) -> Seq<Seq<char>> {
    match hardware_id {
        Some(id) => seq!["unbind"@, "--hardware-id"@, id],
        None => seq!["unbind"@, "--all"@],
    }
}

/// The characters of each string of a vector.
pub open spec fn strings_view(v: Seq<String>) -> Seq<Seq<char>> {
    Seq::new(v.len(), |i: int| v[i]@)
}

/// Builds the arguments of `usbipd bind`.
pub fn bind_device_args(hardware_id: &str, forced: bool) -> (r: Vec<String>)
    ensures
        strings_view(r@) == bind_args_spec(hardware_id@, forced),
{
    let mut args: Vec<String> = Vec::new();
    args.push(String::from_str("bind"));
    args.push(String::from_str("--hardware-id"));
    args.push(String::from_str(hardware_id));
    if forced {
        args.push(String::from_str("--force"));
    }
    assert(strings_view(args@) =~= bind_args_spec(hardware_id@, forced));
    args
}

/// Builds the arguments of `usbipd unbind`.
pub fn unbind_device_args(hardware_id: Option<&str>) -> (r: Vec<String>)
    ensures
        strings_view(r@) == unbind_args_spec(
            match hardware_id {
                Some(id) => Some(id@),
                None => None,
            },
        ),
{
    let mut args: Vec<String> = Vec::new();
    args.push(String::from_str("unbind"));
    match hardware_id {
        Some(id) => {
            args.push(String::from_str("--hardware-id"));
            args.push(String::from_str(id));
        },
        None => {
            args.push(String::from_str("--all"));
        },
    }
    assert(strings_view(args@) =~= unbind_args_spec(
        match hardware_id {
            Some(id) => Some(id@),
            None => None,
        },
    ));
    args
}

/// A blank line after a text that is empty or ends a line changes no device
/// of the list: it only ends the block being read, which the end of the text
/// ends as well.
pub proof fn law_blank_line_keeps_devices(s: Seq<char>)
    requires
        s.len() == 0 || s.last() == '\n',
    ensures
        parse_device_list_spec(s + seq!['\n']) == parse_device_list_spec(s),
{
    let e = Seq::<char>::empty();
    lemma_lines_push_line(s, e);
    assert(s + e + seq!['\n'] =~= s + seq!['\n']);
    assert(lines(s).push(e).drop_last() =~= lines(s));
    assert(trim_start(e) == e);
    assert(trim_end(e) == e);
    assert(trim(e) == e);
}

/// `bind --force` takes the arguments of a plain bind, then `--force`.
pub proof fn law_forced_bind_adds_force(hardware_id: Seq<char>)
    ensures
        bind_args_spec(hardware_id, true) == bind_args_spec(hardware_id, false).push("--force"@),
        bind_args_spec(hardware_id, false).len() == 3,
{
}

/// What a bind or unbind answers: `true` once usbipd ran, else its error.
pub fn command_outcome(run: USBIPDResult<String>) -> (r: USBIPDResult<bool>)
    ensures
        match run {
            Ok(_) => r matches Ok(b) && b,
            Err(e) => r matches Err(e2) && e2.code == e.code && e2.message@ == e.message@,
        },
{
    match run {
        Ok(_) => Ok(true),
        Err(e) => Err(e),
    }
}

/// A line of whitespace alone, without a line feed of its own.
pub open spec fn whitespace_line(w: Seq<char>) -> bool {
    forall|i: int| 0 <= i < w.len() ==> is_ws(w[i]) && w[i] != '\n'
}

/// The block of a run of lines: each trimmed and ended by a line feed.
pub open spec fn block_text(ls: Seq<Seq<char>>) -> Seq<char>
    decreases ls.len(),
{
    if ls.len() == 0 {
        Seq::<char>::empty()
    } else {
        block_text(ls.drop_last()) + trim(ls.last()) + seq!['\n']
    }
}

/// Reading lines one after the other is reading them all.
pub proof fn lemma_block_steps_concat(
    st: (Seq<UsbDeviceView>, Seq<char>),
    x: Seq<Seq<char>>,
    y: Seq<Seq<char>>,
)
    ensures
        block_steps(st, x + y) == block_steps(block_steps(st, x), y),
    decreases y.len(),
{
    if y.len() == 0 {
        assert(x + y =~= x);
    } else {
        lemma_block_steps_concat(st, x, y.drop_last());
        assert((x + y).drop_last() =~= x + y.drop_last());
        assert((x + y).last() == y.last());
    }
}

/// Reading one line is one step.
pub proof fn lemma_block_steps_one(st: (Seq<UsbDeviceView>, Seq<char>), x: Seq<char>)
    ensures
        block_steps(st, seq![x]) == block_step(st, x),
{
    assert(seq![x].drop_last() =~= Seq::<Seq<char>>::empty());
    assert(block_steps(st, Seq::<Seq<char>>::empty()) == st);
}

/// Reading two lines is two steps.
pub proof fn lemma_block_steps_two(st: (Seq<UsbDeviceView>, Seq<char>), x: Seq<char>, y: Seq<char>)
    ensures
        block_steps(st, seq![x, y]) == block_step(block_step(st, x), y),
{
    assert(seq![x, y].drop_last() =~= seq![x]);
    lemma_block_steps_one(st, x);
}

/// A blank line read while no block is open changes nothing.
pub proof fn lemma_blank_step_without_block(st: (Seq<UsbDeviceView>, Seq<char>), w: Seq<char>)
    requires
        st.1.len() == 0,
        trim(w).len() == 0,
    ensures
        block_step(st, w) == st,
{
}

/// Once a blank line is read, no block is open.
pub proof fn lemma_blank_step_closes_block(st: (Seq<UsbDeviceView>, Seq<char>), w: Seq<char>)
    requires
        trim(w).len() == 0,
    ensures
        block_step(st, w).1.len() == 0,
{
}

/// A whitespace line with its line feed is one blank line.
pub proof fn lemma_whitespace_line_lines(w: Seq<char>)
    requires
        whitespace_line(w),
    ensures
        lines(w + seq!['\n']) == seq![w],
        trim(w).len() == 0,
{
    lemma_lines_single(w);
    lemma_trim_whitespace(w);
}

/// A line of whitespace put before the output changes no device.
pub proof fn law_whitespace_line_at_start(w: Seq<char>, s: Seq<char>)
    requires
        whitespace_line(w),
    ensures
        parse_device_list_spec(w + seq!['\n'] + s) == parse_device_list_spec(s),
{
    let init = (Seq::<UsbDeviceView>::empty(), Seq::<char>::empty());
    lemma_whitespace_line_lines(w);
    let h = w + seq!['\n'];
    assert(h.last() == '\n');
    lemma_lines_concat(h, s);
    lemma_block_steps_concat(init, seq![w], lines(s));
    lemma_block_steps_one(init, w);
    lemma_blank_step_without_block(init, w);
}

/// A line of whitespace put right after a blank line changes no device.
pub proof fn law_whitespace_line_after_blank(a: Seq<char>, w: Seq<char>, b: Seq<char>)
    requires
        a.len() > 0 && a.last() == '\n',
        lines(a).len() > 0 && trim(lines(a).last()).len() == 0,
        whitespace_line(w),
    ensures
        parse_device_list_spec(a + w + seq!['\n'] + b) == parse_device_list_spec(a + b),
{
    let init = (Seq::<UsbDeviceView>::empty(), Seq::<char>::empty());
    lemma_whitespace_line_lines(w);
    let h = w + seq!['\n'];
    assert(h.last() == '\n');
    assert(a + w + seq!['\n'] + b =~= a + (h + b));
    lemma_lines_concat(a, h + b);
    lemma_lines_concat(h, b);
    lemma_lines_concat(a, b);
    let la = lines(a);
    let lb = lines(b);
    assert(la + (seq![w] + lb) =~= (la + seq![w]) + lb);
    lemma_block_steps_concat(init, la + seq![w], lb);
    lemma_block_steps_concat(init, la, seq![w]);
    lemma_block_steps_concat(init, la, lb);
    let st = block_steps(init, la);
    lemma_blank_step_closes_block(block_steps(init, la.drop_last()), la.last());
    lemma_block_steps_one(st, w);
    lemma_blank_step_without_block(st, w);
}

/// A line of whitespace put right before a blank line changes no device.
pub proof fn law_whitespace_line_before_blank(a: Seq<char>, w: Seq<char>, b: Seq<char>)
    requires
        a.len() == 0 || a.last() == '\n',
        lines(b).len() > 0 && trim(lines(b)[0]).len() == 0,
        whitespace_line(w),
    ensures
        parse_device_list_spec(a + w + seq!['\n'] + b) == parse_device_list_spec(a + b),
{
    let init = (Seq::<UsbDeviceView>::empty(), Seq::<char>::empty());
    lemma_whitespace_line_lines(w);
    let h = w + seq!['\n'];
    assert(h.last() == '\n');
    assert(a + w + seq!['\n'] + b =~= a + (h + b));
    lemma_lines_concat(a, h + b);
    lemma_lines_concat(h, b);
    lemma_lines_concat(a, b);
    let la = lines(a);
    let lb = lines(b);
    let b0 = lb[0];
    let rest = lb.subrange(1, lb.len() as int);
    assert(lb =~= seq![b0] + rest);
    assert(la + (seq![w] + lb) =~= (la + seq![w, b0]) + rest);
    assert(la + lb =~= (la + seq![b0]) + rest);
    lemma_block_steps_concat(init, la + seq![w, b0], rest);
    lemma_block_steps_concat(init, la + seq![b0], rest);
    lemma_block_steps_concat(init, la, seq![w, b0]);
    lemma_block_steps_concat(init, la, seq![b0]);
    let st = block_steps(init, la);
    let st1 = block_step(st, w);
    lemma_block_steps_two(st, w, b0);
    lemma_block_steps_one(st, b0);
    lemma_blank_step_closes_block(st, w);
    lemma_blank_step_without_block(st1, b0);
}

/// Reading blank lines alone, from the start, finds no device.
pub proof fn lemma_blank_lines_keep_start(ls: Seq<Seq<char>>)
    requires
        forall|i: int| 0 <= i < ls.len() ==> trim(#[trigger] ls[i]).len() == 0,
    ensures
        block_steps((Seq::<UsbDeviceView>::empty(), Seq::<char>::empty()), ls) == (
            Seq::<UsbDeviceView>::empty(),
            Seq::<char>::empty(),
        ),
    decreases ls.len(),
{
    if ls.len() > 0 {
        let l0 = ls.drop_last();
        assert forall|i: int| 0 <= i < l0.len() implies trim(#[trigger] l0[i]).len() == 0 by {
            assert(l0[i] == ls[i]);
        }
        lemma_blank_lines_keep_start(l0);
        assert(trim(ls[ls.len() - 1]).len() == 0);
    }
}

/// An output without a line that holds more than whitespace lists no device.
pub proof fn law_blank_output_has_no_devices(s: Seq<char>)
    requires
        forall|i: int| 0 <= i < lines(s).len() ==> trim(#[trigger] lines(s)[i]).len() == 0,
    ensures
        parse_device_list_spec(s) == Seq::<UsbDeviceView>::empty(),
{
    lemma_blank_lines_keep_start(lines(s));
}

/// Reading non-blank lines alone, from the start, gathers them into one open
/// block.
pub proof fn lemma_non_blank_lines_gather(ls: Seq<Seq<char>>)
    requires
        forall|i: int| 0 <= i < ls.len() ==> trim(#[trigger] ls[i]).len() > 0,
    ensures
        block_steps((Seq::<UsbDeviceView>::empty(), Seq::<char>::empty()), ls) == (
            Seq::<UsbDeviceView>::empty(),
            block_text(ls),
        ),
        ls.len() > 0 ==> block_text(ls).len() > 0,
    decreases ls.len(),
{
    if ls.len() > 0 {
        let l0 = ls.drop_last();
        assert forall|i: int| 0 <= i < l0.len() implies trim(#[trigger] l0[i]).len() > 0 by {
            assert(l0[i] == ls[i]);
        }
        lemma_non_blank_lines_gather(l0);
        assert(trim(ls[ls.len() - 1]).len() > 0);
    }
}

/// An output whose lines all hold more than whitespace lists exactly one
/// device, read from all its lines, though no blank line ends them.
pub proof fn law_last_block_gives_device(s: Seq<char>)
    requires
        lines(s).len() > 0,
        forall|i: int| 0 <= i < lines(s).len() ==> trim(#[trigger] lines(s)[i]).len() > 0,
    ensures
        parse_device_list_spec(s) == seq![parse_device_spec(block_text(lines(s)))],
{
    lemma_non_blank_lines_gather(lines(s));
    assert(Seq::<UsbDeviceView>::empty().push(parse_device_spec(block_text(lines(s)))) =~= seq![
        parse_device_spec(block_text(lines(s))),
    ]);
}

/// A line of whitespace put after a text that is empty or ends a line
/// changes no device: it only ends the block being read, which the end of
/// the text ends as well.
pub proof fn law_whitespace_line_at_end(s: Seq<char>, w: Seq<char>)
    requires
        s.len() == 0 || s.last() == '\n',
        whitespace_line(w),
    ensures
        parse_device_list_spec(s + w + seq!['\n']) == parse_device_list_spec(s),
{
    lemma_lines_push_line(s, w);
    lemma_trim_whitespace(w);
    assert(lines(s).push(w).drop_last() =~= lines(s));
}

} // verus!
