//! The WSL distributions: the arguments that run `wsl.exe`, and the reading
//! of `wsl --list --all --verbose`.
use vstd::prelude::*;

use crate::command_error::{CommandError, ErrorCode, USBIPDResult};
use crate::commands::strings_view;
use crate::text::{
    is_ws, lemma_ws_tokens_skip_leading, lemma_ws_tokens_trim_start, lemma_ws_tokens_non_empty, chars_of, eq_ignore_ascii_case, line_ranges, lines, parse_u32_range, parse_u32_spec,
    range_eq_ignore_ascii_case, range_texts, ranges_within, trim, trim_range, trim_start,
    trim_start_range, ws_token_ranges, ws_tokens,
};
use crate::usbipd::USBIPD;

verus! {

/// A WSL distribution as `wsl --list --verbose` lists it.
#[derive(Debug, Clone)]
pub struct WslDistribution {
    pub name: String,
    pub running: bool,
    pub is_default: bool,
    pub wsl_version: Option<u32>,
}

/// A `WslDistribution` with its name as a character sequence.
pub struct WslDistributionView {
    pub name: Seq<char>,
    pub running: bool,
    pub is_default: bool,
    pub wsl_version: Option<u32>,
}

impl View for WslDistribution {
    type V = WslDistributionView;

    open spec fn view(&self) -> WslDistributionView {
        WslDistributionView {
            name: self.name@,
            running: self.running,
            is_default: self.is_default,
            wsl_version: self.wsl_version,
        }
    }
}

/// The `i`-th token, or the empty text where there are fewer.
pub open spec fn token_or_empty(t: Seq<Seq<char>>, i: int) -> Seq<char> {
    if 0 <= i < t.len() {
        t[i]
    } else {
        Seq::<char>::empty()
    }
}

/// The distribution that the trimmed, non-empty line `line` describes: a
/// leading `'*'` marks the default one; then come its name, its state and
/// its WSL version, separated by whitespace. It runs where its state is
/// `Running` in any ASCII case; a version that is no `u32` reads as 0.
pub open spec fn parse_wsl_line(line: Seq<char>) -> WslDistributionView {
    let is_current = line.len() > 0 && line[0] == '*';
    let s = if is_current {
        trim_start(line.subrange(1, line.len() as int))
    } else {
        line
    };
    let t = ws_tokens(s);
    WslDistributionView {
        name: token_or_empty(t, 0),
        running: eq_ignore_ascii_case(token_or_empty(t, 1), "Running"@),
        is_default: is_current,
        wsl_version: Some(
            match parse_u32_spec(token_or_empty(t, 2)) {
                Some(v) => v,
                None => 0,
            },
        ),
    }
}

/// The distributions of the lines `ls`: one for each line that is not blank.
pub open spec fn wsl_lines(ls: Seq<Seq<char>>) -> Seq<WslDistributionView>
    decreases ls.len(),
{
    if ls.len() == 0 {
        Seq::<WslDistributionView>::empty()
    } else {
        let r = wsl_lines(ls.drop_last());
        let t = trim(ls.last());
        if t.len() == 0 {
            r
        } else {
            r.push(parse_wsl_line(t))
        }
    }
}

/// The distributions of the whole listing: the first line is its header;
/// a listing without a line lists no distribution at all (`None`).
pub open spec fn wsl_list_spec(s: Seq<char>) -> Option<Seq<WslDistributionView>> {
    let ls = lines(s);
    if ls.len() == 0 {
        None
    } else {
        Some(wsl_lines(ls.subrange(1, ls.len() as int)))
    }
}

/// The views of a vector of distributions.
pub open spec fn distributions_view(v: Seq<WslDistribution>) -> Seq<WslDistributionView> {
    Seq::new(v.len(), |i: int| v[i]@)
}

/// The name of the first running distribution of `ds`, if one runs.
pub open spec fn first_running(ds: Seq<WslDistributionView>) -> Option<Seq<char>>
    decreases ds.len(),
{
    if ds.len() == 0 {
        None
    } else if ds[0].running {
        Some(ds[0].name)
    } else {
        first_running(ds.subrange(1, ds.len() as int))
    }
}

/// The arguments of `wsl.exe`: where a distribution is named, the command
/// runs in it as root from `/` (and its output is then UTF-8; the `bool` of
/// the result tells so); else `args` go to `wsl.exe` itself.
pub open spec fn wsl_args_spec(distribution: Option<Seq<char>>, args: Seq<Seq<char>>) -> (
    Seq<Seq<char>>,
    bool,
) {
    match distribution {
        Some(d) => (
            seq!["--distribution"@, d, "--user"@, "root"@, "--cd"@, "/"@, "--exec"@] + args,
            true,
        ),
        None => (args, false),
    }
}

/// Builds the arguments of `wsl.exe` (see `wsl_args_spec`).
pub fn wsl_invocation(distribution: Option<&str>, args: &Vec<String>) -> (r: (Vec<String>, bool))
    ensures
        (strings_view(r.0@), r.1) == wsl_args_spec(
            match distribution {
                Some(d) => Some(d@),
                None => None,
            },
            strings_view(args@),
        ),
{
    let mut out: Vec<String> = Vec::new();
    let mut linux = false;
    match distribution {
        Some(d) => {
            out.push(String::from_str("--distribution"));
            out.push(String::from_str(d));
            out.push(String::from_str("--user"));
            out.push(String::from_str("root"));
            out.push(String::from_str("--cd"));
            out.push(String::from_str("/"));
            out.push(String::from_str("--exec"));
            linux = true;
        },
        None => {},
    }
    let ghost prefix = strings_view(out@);
    let k = out.len();
    let mut i: usize = 0;
    while i < args.len()
        invariant
            i <= args.len(),
            out.len() == k + i,
            strings_view(out@) =~= prefix + strings_view(args@).take(i as int),
        decreases args.len() - i,
    {
        let ghost old_out = out@;
        let c = args[i].clone();
        out.push(c);
        assert(strings_view(out@) =~= strings_view(old_out).push(args@[i as int]@));
        assert(strings_view(args@).take(i + 1) =~= strings_view(args@).take(i as int).push(
            args@[i as int]@,
        ));
        i = i + 1;
    }
    assert(strings_view(args@).take(args.len() as int) =~= strings_view(args@));
    (out, linux)
}

/// The distribution that the trimmed line `v[a..b]` describes.
fn parse_wsl_line_range(output: &str, v: &Vec<char>, a: usize, b: usize) -> (r: WslDistribution)
    requires
        a < b <= v.len(),
        v@ == output@,
    ensures
        r@ == parse_wsl_line(v@.subrange(a as int, b as int)),
{
    let ghost line = v@.subrange(a as int, b as int);
    let is_current = v[a] == '*';
    let s = if is_current {
        trim_start_range(v, a + 1, b)
    } else {
        a
    };
    assert(line[0] == v@[a as int]);
    if is_current {
        assert(line.subrange(1, line.len() as int) =~= v@.subrange(a + 1, b as int));
    }
    let toks = ws_token_ranges(v, s, b);
    let ghost t = range_texts(v@, toks@);
    let name = if toks.len() > 0 {
        let (x, y) = toks[0];
        String::from_str(output.substring_char(x, y))
    } else {
        String::new()
    };
    let running = if toks.len() > 1 {
        let (x, y) = toks[1];
        range_eq_ignore_ascii_case(v, x, y, "Running")
    } else {
        range_eq_ignore_ascii_case(v, 0, 0, "Running")
    };
    assert(v@.subrange(0, 0) =~= token_or_empty(t, 1) || toks.len() > 1);
    let version = if toks.len() > 2 {
        let (x, y) = toks[2];
        parse_u32_range(v, x, y)
    } else {
        parse_u32_range(v, 0, 0)
    };
    assert(v@.subrange(0, 0) =~= token_or_empty(t, 2) || toks.len() > 2);
    assert(name@ == token_or_empty(t, 0));
    WslDistribution {
        name,
        running,
        is_default: is_current,
        wsl_version: Some(
            match version {
                Some(x) => x,
                None => 0,
            },
        ),
    }
}

impl USBIPD {
    /// Reads the distributions that `wsl --list --all --verbose` printed
    /// (`wsl_output`): a listing without any line is refused.
    pub fn get_all_wsl_distribution(&self, wsl_output: &str) -> (r: USBIPDResult<
        Vec<WslDistribution>,
    >)
        ensures
            match r {
                Ok(ds) => wsl_list_spec(wsl_output@) == Some(distributions_view(ds@)),
                Err(e) => wsl_list_spec(wsl_output@) is None && e.code
                    == ErrorCode::WslDistributionNotFound && e.message@ == "No distribution found"@,
            },
    {
        let v = chars_of(wsl_output);
        let ls = line_ranges(&v);
        if ls.len() == 0 {
            return Err(CommandError::new(
                ErrorCode::WslDistributionNotFound,
                String::from_str("No distribution found"),
            ));
        }
        let ghost texts = range_texts(v@, ls@);
        let ghost rest = texts.subrange(1, texts.len() as int);
        let mut vms: Vec<WslDistribution> = Vec::new();
        let mut k: usize = 1;
        assert(rest.take(0) =~= Seq::<Seq<char>>::empty());
        assert(distributions_view(vms@) =~= Seq::<WslDistributionView>::empty());
        while k < ls.len()
            invariant
                v@ == wsl_output@,
                texts == range_texts(v@, ls@),
                texts == lines(v@),
                rest == texts.subrange(1, texts.len() as int),
                ranges_within(ls@, v.len() as int),
                1 <= k <= ls.len(),
                distributions_view(vms@) == wsl_lines(rest.take(k - 1)),
            decreases ls.len() - k,
        {
            let ghost before = vms@;
            let (lo, hi) = ls[k];
            assert(texts[k as int] == v@.subrange(lo as int, hi as int));
            assert(rest.take(k as int).drop_last() =~= rest.take(k - 1));
            assert(rest.take(k as int).last() == texts[k as int]);
            let (a, b) = trim_range(&v, lo, hi);
            if a < b {
                let d = parse_wsl_line_range(wsl_output, &v, a, b);
                vms.push(d);
                assert(distributions_view(vms@) =~= distributions_view(before).push(d@));
            }
            k = k + 1;
        }
        assert(rest.take(ls.len() - 1) =~= rest);
        Ok(vms)
    }

    /// The name of the first running distribution that `wsl_output` lists;
    /// refused where none runs.
    pub fn get_default_or_first_running_wsl_distribution(&self, wsl_output: &str) -> (r:
        USBIPDResult<String>)
        ensures
            match wsl_list_spec(wsl_output@) {
                None => r matches Err(e) && e.code == ErrorCode::WslDistributionNotFound
                    && e.message@ == "No distribution found"@,
                Some(ds) => match first_running(ds) {
                    Some(name) => if name.len() > 0 {
                        r matches Ok(n) && n@ == name
                    } else {
                        r matches Err(e) && e.code == ErrorCode::WslDistributionNotFound
                            && e.message@ == "No running distribution found"@
                    },
                    None => r matches Err(e) && e.code == ErrorCode::WslDistributionNotFound
                        && e.message@ == "No running distribution found"@,
                },
            },
    {
        let distr_list = self.get_all_wsl_distribution(wsl_output)?;
        let ghost ds = distributions_view(distr_list@);
        assert(ds.subrange(0, ds.len() as int) =~= ds);
        let mut i: usize = 0;
        while i < distr_list.len()
            invariant
                ds == distributions_view(distr_list@),
                wsl_list_spec(wsl_output@) == Some(ds),
                i <= distr_list.len(),
                first_running(ds) == first_running(ds.subrange(i as int, ds.len() as int)),
            decreases distr_list.len() - i,
        {
            assert(ds.subrange(i as int, ds.len() as int)[0] == ds[i as int]);
            if distr_list[i].running {
                let distr_name = distr_list[i].name.clone();
                if distr_name.as_str().unicode_len() == 0 {
                    return Err(CommandError::new(
                        ErrorCode::WslDistributionNotFound,
                        String::from_str("No running distribution found"),
                    ));
                }
                return Ok(distr_name);
            }
            assert(ds.subrange(i as int, ds.len() as int).subrange(1, ds.len() - i) =~= ds.subrange(
                i + 1,
                ds.len() as int,
            ));
            i = i + 1;
        }
        Err(
            CommandError::new(
                ErrorCode::WslDistributionNotFound,
                String::from_str("No running distribution found"),
            ),
        )
    }
}

/// A listed distribution that runs has a name.
pub proof fn lemma_running_line_named(line: Seq<char>)
    ensures
        parse_wsl_line(line).running ==> parse_wsl_line(line).name.len() > 0,
{
    reveal_strlit("Running");
    let is_current = line.len() > 0 && line[0] == '*';
    let s = if is_current {
        trim_start(line.subrange(1, line.len() as int))
    } else {
        line
    };
    lemma_ws_tokens_non_empty(s);
    let t = ws_tokens(s);
    if t.len() >= 1 {
        assert(t[0].len() > 0);
    }
}

/// Every distribution of the lines `ls` that runs has a name.
pub proof fn lemma_running_lines_named(ls: Seq<Seq<char>>)
    ensures
        forall|i: int|
            0 <= i < wsl_lines(ls).len() && (#[trigger] wsl_lines(ls)[i]).running ==> wsl_lines(
                ls,
            )[i].name.len() > 0,
    decreases ls.len(),
{
    if ls.len() > 0 {
        lemma_running_lines_named(ls.drop_last());
        lemma_running_line_named(trim(ls.last()));
        let r = wsl_lines(ls.drop_last());
        let u = wsl_lines(ls);
        assert forall|i: int| 0 <= i < u.len() && (#[trigger] u[i]).running implies u[i].name.len()
            > 0 by {
            if i < r.len() {
                assert(u[i] == r[i]);
            }
        }
    }
}

/// `first_running` gives the name of the first distribution that runs, and
/// nothing exactly when none runs.
pub proof fn lemma_first_running(ds: Seq<WslDistributionView>)
    ensures
        first_running(ds) is None <==> forall|i: int| 0 <= i < ds.len() ==> !(#[trigger] ds[i]).running,
        first_running(ds) matches Some(n) ==> exists|i: int|
            0 <= i < ds.len() && (#[trigger] ds[i]).running && ds[i].name == n && forall|j: int|
                0 <= j < i ==> !ds[j].running,
    decreases ds.len(),
{
    if ds.len() > 0 && !ds[0].running {
        let rest = ds.subrange(1, ds.len() as int);
        lemma_first_running(rest);
        if first_running(rest) is None {
            assert forall|i: int| 0 <= i < ds.len() implies !(#[trigger] ds[i]).running by {
                if i > 0 {
                    assert(ds[i] == rest[i - 1]);
                }
            }
        } else {
            let n = first_running(rest)->Some_0;
            let k = choose|k: int|
                0 <= k < rest.len() && (#[trigger] rest[k]).running && rest[k].name == n
                    && forall|j: int| 0 <= j < k ==> !rest[j].running;
            assert(ds[k + 1] == rest[k]);
            assert forall|j: int| 0 <= j < k + 1 implies !ds[j].running by {
                if j > 0 {
                    assert(ds[j] == rest[j - 1]);
                }
            }
        }
    }
}

/// The default-or-first-running query refuses a listing exactly when no
/// distribution of it runs; otherwise it names the first one that runs,
/// and that name is never empty.
pub proof fn law_first_running_found_exactly_when_one_runs(s: Seq<char>)
    requires
        wsl_list_spec(s) is Some,
    ensures
        ({
            let ds = wsl_list_spec(s)->Some_0;
            &&& first_running(ds) is None <==> forall|i: int|
                0 <= i < ds.len() ==> !(#[trigger] ds[i]).running
            &&& first_running(ds) matches Some(n) ==> n.len() > 0
        }),
{
    let ls = lines(s);
    let ds = wsl_lines(ls.subrange(1, ls.len() as int));
    lemma_running_lines_named(ls.subrange(1, ls.len() as int));
    lemma_first_running(ds);
}

/// The default mark does not shift the columns: a line marked with `'*'`
/// (and any whitespace after it) lists the same name, state and version as
/// the line without the mark, and only it is the default.
pub proof fn law_default_mark_keeps_columns(w: Seq<char>, x: Seq<char>)
    requires
        forall|i: int| 0 <= i < w.len() ==> is_ws(w[i]),
        x.len() == 0 || x[0] != '*',
    ensures
        ({
            let marked = parse_wsl_line(seq!['*'] + w + x);
            let plain = parse_wsl_line(x);
            &&& marked.name == plain.name
            &&& marked.running == plain.running
            &&& marked.wsl_version == plain.wsl_version
            &&& marked.is_default
            &&& !plain.is_default
        }),
{
    let line = seq!['*'] + w + x;
    assert(line[0] == '*');
    assert(line.subrange(1, line.len() as int) =~= w + x);
    lemma_ws_tokens_trim_start(w + x);
    lemma_ws_tokens_skip_leading(w, x);
}

/// A listed distribution runs exactly when the state column (the second
/// column after any default mark) reads `Running` in any ASCII case.
pub proof fn law_running_by_state_column(x: Seq<char>)
    requires
        x.len() == 0 || x[0] != '*',
    ensures
        parse_wsl_line(x).running == eq_ignore_ascii_case(
            token_or_empty(ws_tokens(x), 1),
            "Running"@,
        ),
        parse_wsl_line(seq!['*'] + x).running == eq_ignore_ascii_case(
            token_or_empty(ws_tokens(x), 1),
            "Running"@,
        ),
{
    law_default_mark_keeps_columns(Seq::<char>::empty(), x);
    assert(seq!['*'] + Seq::<char>::empty() + x =~= seq!['*'] + x);
}

} // verus!
