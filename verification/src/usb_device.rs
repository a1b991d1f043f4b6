//! A USB device as `Get-UsbipdDevice` describes it, and the parser for its
//! `Key : Value` block of text.
use vstd::prelude::*;

use crate::text::{
    first_index, is_ws, chars_of, eq_ignore_ascii_case, find_char, lemma_lines_concat, lemma_lines_push_line,
    lemma_lines_single, lemma_split_pieces_append, lemma_split_pieces_len, lemma_trim_keeps_absence,
    line_ranges, lines, range_eq_ignore_ascii_case, range_eq_str, range_texts, ranges_within,
    split_once, split_pieces, trim, trim_end, trim_start, trim_range,
};

verus! {

/// A USB device known to usbipd.
#[derive(Debug, Clone)]
pub struct UsbDevice {
    pub instance_id: Option<String>,
    pub hardware_id: Option<String>,
    pub description: Option<String>,
    pub is_forced: bool,
    pub bus_id: Option<String>,
    pub persisted_guid: Option<String>,
    pub stub_instance_id: Option<String>,
    pub client_ip_address: Option<String>,
    pub is_bound: bool,
    pub is_connected: bool,
    pub is_attached: bool,
}

/// A `UsbDevice` with its strings as character sequences.
pub struct UsbDeviceView {
    pub instance_id: Option<Seq<char>>,
    pub hardware_id: Option<Seq<char>>,
    pub description: Option<Seq<char>>,
    pub is_forced: bool,
    pub bus_id: Option<Seq<char>>,
    pub persisted_guid: Option<Seq<char>>,
    pub stub_instance_id: Option<Seq<char>>,
    pub client_ip_address: Option<Seq<char>>,
    pub is_bound: bool,
    pub is_connected: bool,
    pub is_attached: bool,
}

/// The characters of an optional string.
pub open spec fn opt_view(o: Option<String>) -> Option<Seq<char>> {
    match o {
        Some(s) => Some(s@),
        None => None,
    }
}

impl View for UsbDevice {
    type V = UsbDeviceView;

    open spec fn view(&self) -> UsbDeviceView {
        UsbDeviceView {
            instance_id: opt_view(self.instance_id),
            hardware_id: opt_view(self.hardware_id),
            description: opt_view(self.description),
            is_forced: self.is_forced,
            bus_id: opt_view(self.bus_id),
            persisted_guid: opt_view(self.persisted_guid),
            stub_instance_id: opt_view(self.stub_instance_id),
            client_ip_address: opt_view(self.client_ip_address),
            is_bound: self.is_bound,
            is_connected: self.is_connected,
            is_attached: self.is_attached,
        }
    }
}

/// `None` for the empty text, else the text.
pub open spec fn spec_non_empty(s: Seq<char>) -> Option<Seq<char>> {
    if s.len() == 0 {
        None
    } else {
        Some(s)
    }
}

/// What a flag's value means: `true` exactly when the value, lower-cased,
/// reads `true`; every other value, an unknown one too, means `false`.
///
/// Only ASCII case is folded: `str::to_lowercase` maps no character outside
/// ASCII to any of `t`, `r`, `u`, `e`, so the two agree on this comparison.
pub open spec fn spec_parse_bool(s: Seq<char>) -> bool {
    eq_ignore_ascii_case(s, "true"@)
}

/// The device that no line has described yet.
pub open spec fn empty_device() -> UsbDeviceView {
    UsbDeviceView {
        instance_id: None,
        hardware_id: None,
        description: None,
        is_forced: false,
        bus_id: None,
        persisted_guid: None,
        stub_instance_id: None,
        client_ip_address: None,
        is_bound: false,
        is_connected: false,
        is_attached: false,
    }
}

/// The device `d` after the line `line`: the line, trimmed, is split at its
/// first `':'`; the trimmed key names the field that the trimmed value sets.
/// A line without `':'`, or with an unknown key, leaves `d` as it is.
pub open spec fn apply_line(d: UsbDeviceView, line: Seq<char>) -> UsbDeviceView {
    match split_once(trim(line), ':') {
        Some((k0, v0)) => {
            let k = trim(k0);
            let v = trim(v0);
            if k == "InstanceId"@ {
                UsbDeviceView { instance_id: spec_non_empty(v), ..d }
            } else if k == "HardwareId"@ {
                UsbDeviceView { hardware_id: spec_non_empty(v), ..d }
            } else if k == "Description"@ {
                UsbDeviceView { description: spec_non_empty(v), ..d }
            } else if k == "IsForced"@ {
                UsbDeviceView { is_forced: spec_parse_bool(v), ..d }
            } else if k == "BusId"@ {
                UsbDeviceView { bus_id: spec_non_empty(v), ..d }
            } else if k == "PersistedGuid"@ {
                UsbDeviceView { persisted_guid: spec_non_empty(v), ..d }
            } else if k == "StubInstanceId"@ {
                UsbDeviceView { stub_instance_id: spec_non_empty(v), ..d }
            } else if k == "ClientIPAddress"@ {
                UsbDeviceView { client_ip_address: spec_non_empty(v), ..d }
            } else if k == "IsBound"@ {
                UsbDeviceView { is_bound: spec_parse_bool(v), ..d }
            } else if k == "IsConnected"@ {
                UsbDeviceView { is_connected: spec_parse_bool(v), ..d }
            } else if k == "IsAttached"@ {
                UsbDeviceView { is_attached: spec_parse_bool(v), ..d }
            } else {
                d
            }
        },
        None => d,
    }
}

/// `d` after each of `ls` in turn.
pub open spec fn apply_lines(d: UsbDeviceView, ls: Seq<Seq<char>>) -> UsbDeviceView
    decreases ls.len(),
{
    if ls.len() == 0 {
        d
    } else {
        apply_line(apply_lines(d, ls.drop_last()), ls.last())
    }
}

/// The device that the text `s` describes, line by line.
pub open spec fn parse_device_spec(s: Seq<char>) -> UsbDeviceView {
    apply_lines(empty_device(), lines(s))
}

/// Reads a flag's value; never fails (see `spec_parse_bool`).
pub fn parse_bool(s: &str) -> (r: Result<bool, String>)
    ensures
        r == Ok::<bool, String>(spec_parse_bool(s@)),
{
    let v = chars_of(s);
    Ok(range_eq_ignore_ascii_case(&v, 0, v.len(), "true"))
}

/// `None` for the empty string, else a copy of it.
pub fn non_empty(s: &str) -> (r: Option<String>)
    ensures
        opt_view(r) == spec_non_empty(s@),
{
    if s.is_empty() {
        None
    } else {
        Some(String::from_str(s))
    }
}

impl UsbDevice {
    /// Parses a device from its block of `Key : Value` lines; never fails.
    pub fn parse(s: &str) -> (r: Result<UsbDevice, String>)
        ensures
            r matches Ok(d) && d@ == parse_device_spec(s@),
    {
        let v = chars_of(s);
        let ls = line_ranges(&v);
        let mut d = UsbDevice {
            instance_id: None,
            hardware_id: None,
            description: None,
            is_forced: false,
            bus_id: None,
            persisted_guid: None,
            stub_instance_id: None,
            client_ip_address: None,
            is_bound: false,
            is_connected: false,
            is_attached: false,
        };
        let ghost texts = range_texts(v@, ls@);
        let mut k: usize = 0;
        assert(texts.take(0) =~= Seq::<Seq<char>>::empty());
        while k < ls.len()
            invariant
                v@ == s@,
                texts == range_texts(v@, ls@),
                texts == lines(v@),
                ranges_within(ls@, v.len() as int),
                k <= ls.len(),
                d@ == apply_lines(empty_device(), texts.take(k as int)),
            decreases ls.len() - k,
        {
            let ghost before = d@;
            let (lo, hi) = ls[k];
            assert(texts[k as int] == v@.subrange(lo as int, hi as int));
            assert(texts.take(k + 1).drop_last() =~= texts.take(k as int));
            assert(texts.take(k + 1).last() == texts[k as int]);
            let (a, b) = trim_range(&v, lo, hi);
            match find_char(&v, a, b, ':') {
                Some(c) => {
                    let ghost line = v@.subrange(a as int, b as int);
                    assert(line.subrange(0, c - a) =~= v@.subrange(a as int, c as int));
                    assert(line.subrange(c - a + 1, line.len() as int) =~= v@.subrange(
                        c + 1,
                        b as int,
                    ));
                    let (ka, kb) = trim_range(&v, a, c);
                    let (va, vb) = trim_range(&v, c + 1, b);
                    let value = s.substring_char(va, vb);
                    if range_eq_str(&v, ka, kb, "InstanceId") {
                        d.instance_id = non_empty(value);
                    } else if range_eq_str(&v, ka, kb, "HardwareId") {
                        d.hardware_id = non_empty(value);
                    } else if range_eq_str(&v, ka, kb, "Description") {
                        d.description = non_empty(value);
                    } else if range_eq_str(&v, ka, kb, "IsForced") {
                        d.is_forced = parse_bool(value)?;
                    } else if range_eq_str(&v, ka, kb, "BusId") {
                        d.bus_id = non_empty(value);
                    } else if range_eq_str(&v, ka, kb, "PersistedGuid") {
                        d.persisted_guid = non_empty(value);
                    } else if range_eq_str(&v, ka, kb, "StubInstanceId") {
                        d.stub_instance_id = non_empty(value);
                    } else if range_eq_str(&v, ka, kb, "ClientIPAddress") {
                        d.client_ip_address = non_empty(value);
                    } else if range_eq_str(&v, ka, kb, "IsBound") {
                        d.is_bound = parse_bool(value)?;
                    } else if range_eq_str(&v, ka, kb, "IsConnected") {
                        d.is_connected = parse_bool(value)?;
                    } else if range_eq_str(&v, ka, kb, "IsAttached") {
                        d.is_attached = parse_bool(value)?;
                    }
                    assert(d@ == apply_line(before, texts[k as int]));
                },
                None => {
                    assert(d@ == apply_line(before, texts[k as int]));
                },
            }
            k = k + 1;
        }
        assert(texts.take(ls.len() as int) =~= texts);
        Ok(d)
    }
}

impl std::str::FromStr for UsbDevice {
    type Err = String;

    fn from_str(s: &str) -> (r: Result<Self, Self::Err>)
        ensures
            r matches Ok(d) && d@ == parse_device_spec(s@),
    {
        UsbDevice::parse(s)
    }
}

/// A device's text is read line by line: appending one more line (without a
/// line feed of its own, ended by one) to a text that is empty or ends a line
/// gives the device of the text, changed by that line alone. So a later line
/// with a key overrides an earlier one, and a line without a known key
/// changes nothing.
pub proof fn law_device_line_appended(s: Seq<char>, line: Seq<char>)
    requires
        s.len() == 0 || s.last() == '\n',
        forall|i: int| 0 <= i < line.len() ==> line[i] != '\n',
    ensures
        parse_device_spec(s + line + seq!['\n']) == apply_line(parse_device_spec(s), line),
{
    lemma_lines_push_line(s, line);
    assert(lines(s).push(line).drop_last() =~= lines(s));
}

/// A line without `':'` describes nothing: it leaves the device as it was.
pub proof fn law_colonless_line_changes_nothing(d: UsbDeviceView, line: Seq<char>)
    requires
        forall|i: int| 0 <= i < line.len() ==> line[i] != ':',
    ensures
        apply_line(d, line) == d,
{
    lemma_trim_keeps_absence(line, ':');
}

/// The trimmed key and trimmed value of a line, split at its first `':'`
/// once trimmed; `None` for a line without `':'`.
pub open spec fn line_key_value(line: Seq<char>) -> Option<(Seq<char>, Seq<char>)> {
    match split_once(trim(line), ':') {
        Some((k, v)) => Some((trim(k), trim(v))),
        None => None,
    }
}

/// The line has the key `key`.
pub open spec fn line_has_key(line: Seq<char>, key: Seq<char>) -> bool {
    match line_key_value(line) {
        Some((k, _)) => k == key,
        None => false,
    }
}

/// One of the eleven keys that name a field of a device.
pub open spec fn is_device_key(k: Seq<char>) -> bool {
    ||| k == "InstanceId"@
    ||| k == "HardwareId"@
    ||| k == "Description"@
    ||| k == "IsForced"@
    ||| k == "BusId"@
    ||| k == "PersistedGuid"@
    ||| k == "StubInstanceId"@
    ||| k == "ClientIPAddress"@
    ||| k == "IsBound"@
    ||| k == "IsConnected"@
    ||| k == "IsAttached"@
}

/// The line sets a field of a device.
pub open spec fn sets_device_field(line: Seq<char>) -> bool {
    match line_key_value(line) {
        Some((k, _)) => is_device_key(k),
        None => false,
    }
}

/// The value of the last of `ls` whose key is `key`, if one is.
pub open spec fn last_value(ls: Seq<Seq<char>>, key: Seq<char>) -> Option<Seq<char>>
    decreases ls.len(),
{
    if ls.len() == 0 {
        None
    } else if line_has_key(ls.last(), key) {
        Some(line_key_value(ls.last())->Some_0.1)
    } else {
        last_value(ls.drop_last(), key)
    }
}

/// A text field: `None` where no line gives it or the last one gives the
/// empty value, else that value.
pub open spec fn text_field(ls: Seq<Seq<char>>, key: Seq<char>) -> Option<Seq<char>> {
    match last_value(ls, key) {
        Some(v) => spec_non_empty(v),
        None => None,
    }
}

/// A flag: set exactly where the last line that gives it says `true` in
/// any ASCII case.
pub open spec fn flag_field(ls: Seq<Seq<char>>, key: Seq<char>) -> bool {
    match last_value(ls, key) {
        Some(v) => spec_parse_bool(v),
        None => false,
    }
}

/// The device whose every field comes from the last of `ls` that gives it.
pub open spec fn device_by_last_values(ls: Seq<Seq<char>>) -> UsbDeviceView {
    UsbDeviceView {
        instance_id: text_field(ls, "InstanceId"@),
        hardware_id: text_field(ls, "HardwareId"@),
        description: text_field(ls, "Description"@),
        is_forced: flag_field(ls, "IsForced"@),
        bus_id: text_field(ls, "BusId"@),
        persisted_guid: text_field(ls, "PersistedGuid"@),
        stub_instance_id: text_field(ls, "StubInstanceId"@),
        client_ip_address: text_field(ls, "ClientIPAddress"@),
        is_bound: flag_field(ls, "IsBound"@),
        is_connected: flag_field(ls, "IsConnected"@),
        is_attached: flag_field(ls, "IsAttached"@),
    }
}

/// The eleven keys differ from one another within their first three
/// characters.
proof fn lemma_device_keys_differ()
    ensures
        "InstanceId"@.len() == 10 && "InstanceId"@[0] == 'I' && "InstanceId"@[1] == 'n',
        "HardwareId"@.len() == 10 && "HardwareId"@[0] == 'H',
        "Description"@.len() == 11 && "Description"@[0] == 'D',
        "IsForced"@.len() == 8 && "IsForced"@[0] == 'I' && "IsForced"@[1] == 's'
            && "IsForced"@[2] == 'F',
        "BusId"@.len() == 5 && "BusId"@[0] == 'B',
        "PersistedGuid"@.len() == 13 && "PersistedGuid"@[0] == 'P',
        "StubInstanceId"@.len() == 14 && "StubInstanceId"@[0] == 'S',
        "ClientIPAddress"@.len() == 15 && "ClientIPAddress"@[0] == 'C',
        "IsBound"@.len() == 7 && "IsBound"@[0] == 'I' && "IsBound"@[1] == 's' && "IsBound"@[2]
            == 'B',
        "IsConnected"@.len() == 11 && "IsConnected"@[0] == 'I' && "IsConnected"@[1] == 's'
            && "IsConnected"@[2] == 'C',
        "IsAttached"@.len() == 10 && "IsAttached"@[0] == 'I' && "IsAttached"@[1] == 's'
            && "IsAttached"@[2] == 'A',
{
    reveal_strlit("InstanceId");
    reveal_strlit("HardwareId");
    reveal_strlit("Description");
    reveal_strlit("IsForced");
    reveal_strlit("BusId");
    reveal_strlit("PersistedGuid");
    reveal_strlit("StubInstanceId");
    reveal_strlit("ClientIPAddress");
    reveal_strlit("IsBound");
    reveal_strlit("IsConnected");
    reveal_strlit("IsAttached");
}

/// One more line sets the field of its key alone.
proof fn lemma_apply_line_last_values(ls: Seq<Seq<char>>, l: Seq<char>)
    ensures
        apply_line(device_by_last_values(ls), l) == device_by_last_values(ls.push(l)),
{
    lemma_device_keys_differ();
    assert(ls.push(l).drop_last() =~= ls);
    assert(ls.push(l).last() == l);
}

/// Reading lines from the empty device gives each field its last value.
proof fn lemma_apply_lines_last_values(ls: Seq<Seq<char>>)
    ensures
        apply_lines(empty_device(), ls) == device_by_last_values(ls),
    decreases ls.len(),
{
    if ls.len() > 0 {
        lemma_apply_lines_last_values(ls.drop_last());
        lemma_apply_line_last_values(ls.drop_last(), ls.last());
        assert(ls.drop_last().push(ls.last()) =~= ls);
    }
}

/// Each field of a device comes from the last line whose trimmed key names
/// it, its trimmed value read as `non_empty` reads a text and `parse_bool` a
/// flag; a field that no line gives is `None` or `false`.
pub proof fn law_device_fields_from_last_lines(s: Seq<char>)
    ensures
        parse_device_spec(s) == device_by_last_values(lines(s)),
{
    lemma_apply_lines_last_values(lines(s));
}

/// A line that gives none of the keys, read before or after the others,
/// changes no last value.
proof fn lemma_last_value_unkeyed(ls: Seq<Seq<char>>, l: Seq<char>, key: Seq<char>)
    requires
        !line_has_key(l, key),
    ensures
        last_value(ls.push(l), key) == last_value(ls, key),
        last_value(seq![l] + ls, key) == last_value(ls, key),
    decreases ls.len(),
{
    assert(ls.push(l).drop_last() =~= ls);
    if ls.len() > 0 {
        lemma_last_value_unkeyed(ls.drop_last(), l, key);
        assert((seq![l] + ls).drop_last() =~= seq![l] + ls.drop_last());
        assert((seq![l] + ls).last() == ls.last());
    } else {
        assert(seq![l] + ls =~= seq![l]);
        assert(seq![l].drop_last() =~= ls);
    }
}

/// A line that sets no field leaves the last values of a device as they were
/// when read before or after the others.
proof fn lemma_device_unkeyed_line(ls: Seq<Seq<char>>, l: Seq<char>)
    requires
        !sets_device_field(l),
    ensures
        device_by_last_values(ls.push(l)) == device_by_last_values(ls),
        device_by_last_values(seq![l] + ls) == device_by_last_values(ls),
{
    lemma_last_value_unkeyed(ls, l, "InstanceId"@);
    lemma_last_value_unkeyed(ls, l, "HardwareId"@);
    lemma_last_value_unkeyed(ls, l, "Description"@);
    lemma_last_value_unkeyed(ls, l, "IsForced"@);
    lemma_last_value_unkeyed(ls, l, "BusId"@);
    lemma_last_value_unkeyed(ls, l, "PersistedGuid"@);
    lemma_last_value_unkeyed(ls, l, "StubInstanceId"@);
    lemma_last_value_unkeyed(ls, l, "ClientIPAddress"@);
    lemma_last_value_unkeyed(ls, l, "IsBound"@);
    lemma_last_value_unkeyed(ls, l, "IsConnected"@);
    lemma_last_value_unkeyed(ls, l, "IsAttached"@);
}

/// The lines of a text without line feeds: none for the empty text, else
/// the text itself.
proof fn lemma_lines_of_line(l: Seq<char>)
    requires
        forall|i: int| 0 <= i < l.len() ==> l[i] != '\n',
    ensures
        l.len() == 0 ==> lines(l) == Seq::<Seq<char>>::empty(),
        l.len() > 0 ==> lines(l) == seq![l],
{
    let e = Seq::<char>::empty();
    lemma_split_pieces_append(e, l);
    assert(e + l =~= l);
    assert(split_pieces(e) =~= seq![e]);
    assert(e + l =~= l);
    assert(seq![e].update(0, e + l) =~= seq![l]);
    if l.len() == 0 {
        assert(seq![l].drop_last() =~= Seq::<Seq<char>>::empty());
    }
}

/// A line feed after a text adds at most an empty line to its lines.
proof fn lemma_lines_line_feed(s: Seq<char>)
    ensures
        lines(s + seq!['\n']) == lines(s) || lines(s + seq!['\n']) == lines(s).push(
            Seq::<char>::empty(),
        ),
{
    lemma_split_pieces_len(s);
    let u = s + seq!['\n'];
    assert(u.drop_last() =~= s);
    assert(u.last() == '\n');
    let p = split_pieces(s);
    assert(split_pieces(u) == p.push(Seq::<char>::empty()));
    assert(lines(u) =~= p);
    if p.last().len() == 0 {
        assert(p.last() =~= Seq::<char>::empty());
        assert(p =~= p.drop_last().push(Seq::<char>::empty()));
    }
}

/// The empty line sets no field.
proof fn lemma_empty_line_sets_nothing()
    ensures
        !sets_device_field(Seq::<char>::empty()),
{
    let e = Seq::<char>::empty();
    assert(trim_start(e) == e);
    assert(trim_end(e) == e);
    assert(trim(e) == e);
}

/// A line that sets no field, put after the text (behind a line feed) or
/// before it (followed by one), changes no field of the device.
pub proof fn law_unknown_line_around_device(s: Seq<char>, l: Seq<char>)
    requires
        forall|i: int| 0 <= i < l.len() ==> l[i] != '\n',
        !sets_device_field(l),
    ensures
        parse_device_spec(s + seq!['\n'] + l) == parse_device_spec(s),
        parse_device_spec(l + seq!['\n'] + s) == parse_device_spec(s),
{
    let e = Seq::<char>::empty();
    let a = s + seq!['\n'];
    assert(a.last() == '\n');
    law_device_fields_from_last_lines(s);
    law_device_fields_from_last_lines(a + l);
    law_device_fields_from_last_lines(l + seq!['\n'] + s);
    lemma_lines_concat(a, l);
    lemma_lines_of_line(l);
    lemma_lines_line_feed(s);
    lemma_empty_line_sets_nothing();
    let ls = lines(s);
    lemma_device_unkeyed_line(ls, e);
    lemma_device_unkeyed_line(ls, l);
    lemma_device_unkeyed_line(ls.push(e), l);
    assert(ls + Seq::<Seq<char>>::empty() =~= ls);
    assert(ls.push(e) + Seq::<Seq<char>>::empty() =~= ls.push(e));
    assert(ls + seq![l] =~= ls.push(l));
    assert(ls.push(e) + seq![l] =~= ls.push(e).push(l));
    let h = l + seq!['\n'];
    assert(h.last() == '\n');
    lemma_lines_single(l);
    lemma_lines_concat(h, s);
}

/// Only the empty value is dropped: every other text is kept as it is.
pub proof fn law_non_empty_drops_only_empty(v: Seq<char>)
    ensures
        (spec_non_empty(v) is None) <==> v.len() == 0,
        v.len() > 0 ==> spec_non_empty(v) == Some(v),
{
}

/// The first `c` of `a`, `c`, `b` is the one after `a` where `a` holds no `c`.
proof fn lemma_first_index_after(a: Seq<char>, c: char, b: Seq<char>)
    requires
        forall|i: int| 0 <= i < a.len() ==> a[i] != c,
    ensures
        first_index(a + seq![c] + b, c) == a.len(),
    decreases a.len(),
{
    let u = a + seq![c] + b;
    if a.len() == 0 {
        assert(u[0] == c);
    } else {
        let t = a.subrange(1, a.len() as int);
        assert forall|i: int| 0 <= i < t.len() implies t[i] != c by {
            assert(t[i] == a[i + 1]);
        }
        lemma_first_index_after(t, c, b);
        assert(u.subrange(1, u.len() as int) =~= t + seq![c] + b);
        assert(u[0] == a[0]);
    }
}

/// A text that begins and ends with a character other than whitespace is
/// its own trim.
proof fn lemma_trim_of_trimmed(y: Seq<char>)
    requires
        y.len() > 0,
        !is_ws(y[0]),
        !is_ws(y[y.len() - 1]),
    ensures
        trim(y) == y,
{
    assert(trim_start(y) == y);
    assert(trim_end(y) == y);
}

/// The line `key`, `:`, `value` gives that key and that value, where neither
/// holds a line feed, neither begins or ends with whitespace, and the key
/// holds no `':'`.
proof fn lemma_key_value_line(key: Seq<char>, v: Seq<char>)
    requires
        key.len() > 0 && !is_ws(key[0]) && !is_ws(key[key.len() - 1]),
        forall|i: int| 0 <= i < key.len() ==> key[i] != ':',
        v.len() > 0 && !is_ws(v[0]) && !is_ws(v[v.len() - 1]),
    ensures
        line_key_value(key + seq![':'] + v) == Some((key, v)),
{
    let line = key + seq![':'] + v;
    assert(line[0] == key[0]);
    assert(line[line.len() - 1] == v[v.len() - 1]);
    lemma_trim_of_trimmed(line);
    lemma_first_index_after(key, ':', v);
    assert(line.subrange(0, key.len() as int) =~= key);
    assert(line.subrange(key.len() + 1int, line.len() as int) =~= v);
    lemma_trim_of_trimmed(key);
    lemma_trim_of_trimmed(v);
}

/// A line `key:value`, appended to a text that is empty or ends a line,
/// makes `value` the key's last value; a text field of that key then holds
/// the value, whatever characters (such as `'.'`) it has.
pub proof fn law_keyed_line_gives_value(s: Seq<char>, key: Seq<char>, v: Seq<char>)
    requires
        s.len() == 0 || s.last() == '\n',
        key.len() > 0 && !is_ws(key[0]) && !is_ws(key[key.len() - 1]),
        forall|i: int| 0 <= i < key.len() ==> key[i] != ':' && key[i] != '\n',
        v.len() > 0 && !is_ws(v[0]) && !is_ws(v[v.len() - 1]),
        forall|i: int| 0 <= i < v.len() ==> v[i] != '\n',
    ensures
        last_value(lines(s + (key + seq![':'] + v) + seq!['\n']), key) == Some(v),
        text_field(lines(s + (key + seq![':'] + v) + seq!['\n']), key) == Some(v),
{
    let line = key + seq![':'] + v;
    assert forall|i: int| 0 <= i < line.len() implies line[i] != '\n' by {
        if i < key.len() {
            assert(line[i] == key[i]);
        } else if i > key.len() {
            assert(line[i] == v[i - key.len() - 1]);
        }
    }
    lemma_lines_push_line(s, line);
    lemma_key_value_line(key, v);
    assert(lines(s).push(line).last() == line);
}

/// The characters of the key `ClientIPAddress`.
proof fn lemma_client_ip_key()
    ensures
        "ClientIPAddress"@ =~= seq![
            'C', 'l', 'i', 'e', 'n', 't', 'I', 'P', 'A', 'd', 'd', 'r', 'e', 's', 's',
        ],
{
    reveal_strlit("ClientIPAddress");
}

/// The characters of the key `Description`.
proof fn lemma_description_key()
    ensures
        "Description"@ =~= seq!['D', 'e', 's', 'c', 'r', 'i', 'p', 't', 'i', 'o', 'n'],
{
    reveal_strlit("Description");
}

/// A last line `ClientIPAddress:address` gives the device that address,
/// dots and all.
pub proof fn law_client_ip_address_kept(s: Seq<char>, v: Seq<char>)
    requires
        s.len() == 0 || s.last() == '\n',
        v.len() > 0 && !is_ws(v[0]) && !is_ws(v[v.len() - 1]),
        forall|i: int| 0 <= i < v.len() ==> v[i] != '\n',
    ensures
        parse_device_spec(s + ("ClientIPAddress"@ + seq![':'] + v) + seq!['\n']).client_ip_address
            == Some(v),
{
    let key = "ClientIPAddress"@;
    lemma_client_ip_key();
    law_keyed_line_gives_value(s, key, v);
    law_device_fields_from_last_lines(s + (key + seq![':'] + v) + seq!['\n']);
}

/// A last line `Description:text` gives the device that description, dots
/// and all.
pub proof fn law_description_kept(s: Seq<char>, v: Seq<char>)
    requires
        s.len() == 0 || s.last() == '\n',
        v.len() > 0 && !is_ws(v[0]) && !is_ws(v[v.len() - 1]),
        forall|i: int| 0 <= i < v.len() ==> v[i] != '\n',
    ensures
        parse_device_spec(s + ("Description"@ + seq![':'] + v) + seq!['\n']).description == Some(
            v,
        ),
{
    let key = "Description"@;
    lemma_description_key();
    law_keyed_line_gives_value(s, key, v);
    law_device_fields_from_last_lines(s + (key + seq![':'] + v) + seq!['\n']);
}

} // verus!
