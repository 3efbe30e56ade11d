use vstd::prelude::*;
use vstd::string::*;

verus! {

/// An automatable parameter of a node, of the listener, or of a worklet.
#[derive(Debug, Clone, Copy, PartialEq, Eq, Hash)]
pub enum ParamKind {
    Gain,
    Frequency,
    Detune,
    Offset,
    PlaybackRate,
    Q,
    FilterGain,
    Pan,
    DelayTime,
    Threshold,
    Knee,
    Ratio,
    Attack,
    Release,
    PositionX,
    PositionY,
    PositionZ,
    OrientationX,
    OrientationY,
    OrientationZ,
    ForwardX,
    ForwardY,
    ForwardZ,
    UpX,
    UpY,
    UpZ,
    WorkletParam(usize),
}

/// The parameter a sequencer automation names, in camel or snake case.
pub open spec fn param_of_name(s: Seq<char>) -> Option<ParamKind> {
    if s == "gain"@ { Some(ParamKind::Gain) }
    else if s == "frequency"@ { Some(ParamKind::Frequency) }
    else if s == "detune"@ { Some(ParamKind::Detune) }
    else if s == "offset"@ { Some(ParamKind::Offset) }
    else if s == "playbackRate"@ || s == "playback_rate"@ { Some(ParamKind::PlaybackRate) }
    else if s == "pan"@ { Some(ParamKind::Pan) }
    else if s == "delayTime"@ || s == "delay_time"@ { Some(ParamKind::DelayTime) }
    else if s == "q"@ || s == "Q"@ { Some(ParamKind::Q) }
    else if s == "filterGain"@ || s == "filter_gain"@ { Some(ParamKind::FilterGain) }
    else if s == "threshold"@ { Some(ParamKind::Threshold) }
    else if s == "knee"@ { Some(ParamKind::Knee) }
    else if s == "ratio"@ { Some(ParamKind::Ratio) }
    else if s == "attack"@ { Some(ParamKind::Attack) }
    else if s == "release"@ { Some(ParamKind::Release) }
    else { None }
}

/// The name a sequencer automation gives a parameter, in camel case; none
/// for the parameters it cannot name.
pub open spec fn param_name(k: ParamKind) -> Option<Seq<char>> {
    match k {
        ParamKind::Gain => Some("gain"@),
        ParamKind::Frequency => Some("frequency"@),
        ParamKind::Detune => Some("detune"@),
        ParamKind::Offset => Some("offset"@),
        ParamKind::PlaybackRate => Some("playbackRate"@),
        ParamKind::Pan => Some("pan"@),
        ParamKind::DelayTime => Some("delayTime"@),
        ParamKind::Q => Some("q"@),
        ParamKind::FilterGain => Some("filterGain"@),
        ParamKind::Threshold => Some("threshold"@),
        ParamKind::Knee => Some("knee"@),
        ParamKind::Ratio => Some("ratio"@),
        ParamKind::Attack => Some("attack"@),
        ParamKind::Release => Some("release"@),
        _ => None,
    }
}

/// The other spelling a parameter is known by: snake case, or `Q`.
pub open spec fn param_alias(k: ParamKind) -> Option<Seq<char>> {
    match k {
        ParamKind::PlaybackRate => Some("playback_rate"@),
        ParamKind::DelayTime => Some("delay_time"@),
        ParamKind::Q => Some("Q"@),
        ParamKind::FilterGain => Some("filter_gain"@),
        _ => None,
    }
}

/// Each parameter a sequencer can automate is found by its name and by its
/// other spelling, and a name finds only the parameter it spells: different
/// names of different parameters never lead to the same one.
pub proof fn law_param_names_name_their_parameter(k: ParamKind, s: Seq<char>)
    ensures
        param_name(k) is Some ==> param_of_name(param_name(k)->0) == Some(k),
        param_alias(k) is Some ==> param_of_name(param_alias(k)->0) == Some(k),
        param_of_name(s) == Some(k) ==> param_name(k) == Some(s) || param_alias(k) == Some(s),
{
    reveal_strlit("Q");
    reveal_strlit("attack");
    reveal_strlit("delayTime");
    reveal_strlit("delay_time");
    reveal_strlit("detune");
    reveal_strlit("filterGain");
    reveal_strlit("filter_gain");
    reveal_strlit("frequency");
    reveal_strlit("gain");
    reveal_strlit("knee");
    reveal_strlit("offset");
    reveal_strlit("pan");
    reveal_strlit("playbackRate");
    reveal_strlit("playback_rate");
    reveal_strlit("q");
    reveal_strlit("ratio");
    reveal_strlit("release");
    reveal_strlit("threshold");
    match k {
        ParamKind::Gain => {
            assert(param_of_name("gain"@) == Some(ParamKind::Gain));
        },
        ParamKind::Frequency => {
            assert("frequency"@.len() != "gain"@.len());
            assert(param_of_name("frequency"@) == Some(ParamKind::Frequency));
        },
        ParamKind::Detune => {
            assert("detune"@.len() != "gain"@.len());
            assert("detune"@.len() != "frequency"@.len());
            assert(param_of_name("detune"@) == Some(ParamKind::Detune));
        },
        ParamKind::Offset => {
            assert("offset"@.len() != "gain"@.len());
            assert("offset"@.len() != "frequency"@.len());
            assert("offset"@[0] != "detune"@[0]);
            assert(param_of_name("offset"@) == Some(ParamKind::Offset));
        },
        ParamKind::PlaybackRate => {
            assert("playbackRate"@.len() != "gain"@.len());
            assert("playbackRate"@.len() != "frequency"@.len());
            assert("playbackRate"@.len() != "detune"@.len());
            assert("playbackRate"@.len() != "offset"@.len());
            assert(param_of_name("playbackRate"@) == Some(ParamKind::PlaybackRate));
            assert("playback_rate"@.len() != "gain"@.len());
            assert("playback_rate"@.len() != "frequency"@.len());
            assert("playback_rate"@.len() != "detune"@.len());
            assert("playback_rate"@.len() != "offset"@.len());
            assert("playback_rate"@.len() != "playbackRate"@.len());
            assert(param_of_name("playback_rate"@) == Some(ParamKind::PlaybackRate));
        },
        ParamKind::Pan => {
            assert("pan"@.len() != "gain"@.len());
            assert("pan"@.len() != "frequency"@.len());
            assert("pan"@.len() != "detune"@.len());
            assert("pan"@.len() != "offset"@.len());
            assert("pan"@.len() != "playbackRate"@.len());
            assert("pan"@.len() != "playback_rate"@.len());
            assert(param_of_name("pan"@) == Some(ParamKind::Pan));
        },
        ParamKind::DelayTime => {
            assert("delayTime"@.len() != "gain"@.len());
            assert("delayTime"@[0] != "frequency"@[0]);
            assert("delayTime"@.len() != "detune"@.len());
            assert("delayTime"@.len() != "offset"@.len());
            assert("delayTime"@.len() != "playbackRate"@.len());
            assert("delayTime"@.len() != "playback_rate"@.len());
            assert("delayTime"@.len() != "pan"@.len());
            assert(param_of_name("delayTime"@) == Some(ParamKind::DelayTime));
            assert("delay_time"@.len() != "gain"@.len());
            assert("delay_time"@.len() != "frequency"@.len());
            assert("delay_time"@.len() != "detune"@.len());
            assert("delay_time"@.len() != "offset"@.len());
            assert("delay_time"@.len() != "playbackRate"@.len());
            assert("delay_time"@.len() != "playback_rate"@.len());
            assert("delay_time"@.len() != "pan"@.len());
            assert("delay_time"@.len() != "delayTime"@.len());
            assert(param_of_name("delay_time"@) == Some(ParamKind::DelayTime));
        },
        ParamKind::Q => {
            assert("q"@.len() != "gain"@.len());
            assert("q"@.len() != "frequency"@.len());
            assert("q"@.len() != "detune"@.len());
            assert("q"@.len() != "offset"@.len());
            assert("q"@.len() != "playbackRate"@.len());
            assert("q"@.len() != "playback_rate"@.len());
            assert("q"@.len() != "pan"@.len());
            assert("q"@.len() != "delayTime"@.len());
            assert("q"@.len() != "delay_time"@.len());
            assert(param_of_name("q"@) == Some(ParamKind::Q));
            assert("Q"@.len() != "gain"@.len());
            assert("Q"@.len() != "frequency"@.len());
            assert("Q"@.len() != "detune"@.len());
            assert("Q"@.len() != "offset"@.len());
            assert("Q"@.len() != "playbackRate"@.len());
            assert("Q"@.len() != "playback_rate"@.len());
            assert("Q"@.len() != "pan"@.len());
            assert("Q"@.len() != "delayTime"@.len());
            assert("Q"@.len() != "delay_time"@.len());
            assert("Q"@[0] != "q"@[0]);
            assert(param_of_name("Q"@) == Some(ParamKind::Q));
        },
        ParamKind::FilterGain => {
            assert("filterGain"@.len() != "gain"@.len());
            assert("filterGain"@.len() != "frequency"@.len());
            assert("filterGain"@.len() != "detune"@.len());
            assert("filterGain"@.len() != "offset"@.len());
            assert("filterGain"@.len() != "playbackRate"@.len());
            assert("filterGain"@.len() != "playback_rate"@.len());
            assert("filterGain"@.len() != "pan"@.len());
            assert("filterGain"@.len() != "delayTime"@.len());
            assert("filterGain"@[0] != "delay_time"@[0]);
            assert("filterGain"@.len() != "q"@.len());
            assert("filterGain"@.len() != "Q"@.len());
            assert(param_of_name("filterGain"@) == Some(ParamKind::FilterGain));
            assert("filter_gain"@.len() != "gain"@.len());
            assert("filter_gain"@.len() != "frequency"@.len());
            assert("filter_gain"@.len() != "detune"@.len());
            assert("filter_gain"@.len() != "offset"@.len());
            assert("filter_gain"@.len() != "playbackRate"@.len());
            assert("filter_gain"@.len() != "playback_rate"@.len());
            assert("filter_gain"@.len() != "pan"@.len());
            assert("filter_gain"@.len() != "delayTime"@.len());
            assert("filter_gain"@.len() != "delay_time"@.len());
            assert("filter_gain"@.len() != "q"@.len());
            assert("filter_gain"@.len() != "Q"@.len());
            assert("filter_gain"@.len() != "filterGain"@.len());
            assert(param_of_name("filter_gain"@) == Some(ParamKind::FilterGain));
        },
        ParamKind::Threshold => {
            assert("threshold"@.len() != "gain"@.len());
            assert("threshold"@[0] != "frequency"@[0]);
            assert("threshold"@.len() != "detune"@.len());
            assert("threshold"@.len() != "offset"@.len());
            assert("threshold"@.len() != "playbackRate"@.len());
            assert("threshold"@.len() != "playback_rate"@.len());
            assert("threshold"@.len() != "pan"@.len());
            assert("threshold"@[0] != "delayTime"@[0]);
            assert("threshold"@.len() != "delay_time"@.len());
            assert("threshold"@.len() != "q"@.len());
            assert("threshold"@.len() != "Q"@.len());
            assert("threshold"@.len() != "filterGain"@.len());
            assert("threshold"@.len() != "filter_gain"@.len());
            assert(param_of_name("threshold"@) == Some(ParamKind::Threshold));
        },
        ParamKind::Knee => {
            assert("knee"@[0] != "gain"@[0]);
            assert("knee"@.len() != "frequency"@.len());
            assert("knee"@.len() != "detune"@.len());
            assert("knee"@.len() != "offset"@.len());
            assert("knee"@.len() != "playbackRate"@.len());
            assert("knee"@.len() != "playback_rate"@.len());
            assert("knee"@.len() != "pan"@.len());
            assert("knee"@.len() != "delayTime"@.len());
            assert("knee"@.len() != "delay_time"@.len());
            assert("knee"@.len() != "q"@.len());
            assert("knee"@.len() != "Q"@.len());
            assert("knee"@.len() != "filterGain"@.len());
            assert("knee"@.len() != "filter_gain"@.len());
            assert("knee"@.len() != "threshold"@.len());
            assert(param_of_name("knee"@) == Some(ParamKind::Knee));
        },
        ParamKind::Ratio => {
            assert("ratio"@.len() != "gain"@.len());
            assert("ratio"@.len() != "frequency"@.len());
            assert("ratio"@.len() != "detune"@.len());
            assert("ratio"@.len() != "offset"@.len());
            assert("ratio"@.len() != "playbackRate"@.len());
            assert("ratio"@.len() != "playback_rate"@.len());
            assert("ratio"@.len() != "pan"@.len());
            assert("ratio"@.len() != "delayTime"@.len());
            assert("ratio"@.len() != "delay_time"@.len());
            assert("ratio"@.len() != "q"@.len());
            assert("ratio"@.len() != "Q"@.len());
            assert("ratio"@.len() != "filterGain"@.len());
            assert("ratio"@.len() != "filter_gain"@.len());
            assert("ratio"@.len() != "threshold"@.len());
            assert("ratio"@.len() != "knee"@.len());
            assert(param_of_name("ratio"@) == Some(ParamKind::Ratio));
        },
        ParamKind::Attack => {
            assert("attack"@.len() != "gain"@.len());
            assert("attack"@.len() != "frequency"@.len());
            assert("attack"@[0] != "detune"@[0]);
            assert("attack"@[0] != "offset"@[0]);
            assert("attack"@.len() != "playbackRate"@.len());
            assert("attack"@.len() != "playback_rate"@.len());
            assert("attack"@.len() != "pan"@.len());
            assert("attack"@.len() != "delayTime"@.len());
            assert("attack"@.len() != "delay_time"@.len());
            assert("attack"@.len() != "q"@.len());
            assert("attack"@.len() != "Q"@.len());
            assert("attack"@.len() != "filterGain"@.len());
            assert("attack"@.len() != "filter_gain"@.len());
            assert("attack"@.len() != "threshold"@.len());
            assert("attack"@.len() != "knee"@.len());
            assert("attack"@.len() != "ratio"@.len());
            assert(param_of_name("attack"@) == Some(ParamKind::Attack));
        },
        ParamKind::Release => {
            assert("release"@.len() != "gain"@.len());
            assert("release"@.len() != "frequency"@.len());
            assert("release"@.len() != "detune"@.len());
            assert("release"@.len() != "offset"@.len());
            assert("release"@.len() != "playbackRate"@.len());
            assert("release"@.len() != "playback_rate"@.len());
            assert("release"@.len() != "pan"@.len());
            assert("release"@.len() != "delayTime"@.len());
            assert("release"@.len() != "delay_time"@.len());
            assert("release"@.len() != "q"@.len());
            assert("release"@.len() != "Q"@.len());
            assert("release"@.len() != "filterGain"@.len());
            assert("release"@.len() != "filter_gain"@.len());
            assert("release"@.len() != "threshold"@.len());
            assert("release"@.len() != "knee"@.len());
            assert("release"@.len() != "ratio"@.len());
            assert("release"@.len() != "attack"@.len());
            assert(param_of_name("release"@) == Some(ParamKind::Release));
        },
        _ => {},
    }
}

/// Whether two texts are the same.
fn same_text(a: &str, b: &str) -> (r: bool)
    ensures
        r == (a@ == b@),
{
    let n = a.unicode_len();
    if n != b.unicode_len() {
        return false;
    }
    let mut i: usize = 0;
    while i < n
        invariant
            n == a@.len(),
            n == b@.len(),
            i <= n,
            a@.take(i as int) == b@.take(i as int),
        decreases n - i,
    {
        if a.get_char(i) != b.get_char(i) {
            assert(a@[i as int] != b@[i as int]);
            return false;
        }
        assert(a@.take(i + 1) =~= a@.take(i as int).push(a@[i as int]));
        assert(b@.take(i + 1) =~= b@.take(i as int).push(b@[i as int]));
        i = i + 1;
    }
    assert(a@.take(n as int) =~= a@);
    assert(b@.take(n as int) =~= b@);
    true
}

/// The parameter that a sequencer automation target names: `gain`,
/// `frequency`, `detune`, `offset`, `playbackRate`, `pan`, `delayTime`, `q`,
/// `filterGain`, `threshold`, `knee`, `ratio`, `attack` or `release`, and
/// the snake-case spellings and `Q`.
pub fn named_sequencer_param(target: &str) -> (r: Option<ParamKind>)
    ensures
        r == param_of_name(target@),
{
    if same_text(target, "gain") { Some(ParamKind::Gain) }
    else if same_text(target, "frequency") { Some(ParamKind::Frequency) }
    else if same_text(target, "detune") { Some(ParamKind::Detune) }
    else if same_text(target, "offset") { Some(ParamKind::Offset) }
    else if same_text(target, "playbackRate") || same_text(target, "playback_rate") { Some(ParamKind::PlaybackRate) }
    else if same_text(target, "pan") { Some(ParamKind::Pan) }
    else if same_text(target, "delayTime") || same_text(target, "delay_time") { Some(ParamKind::DelayTime) }
    else if same_text(target, "q") || same_text(target, "Q") { Some(ParamKind::Q) }
    else if same_text(target, "filterGain") || same_text(target, "filter_gain") { Some(ParamKind::FilterGain) }
    else if same_text(target, "threshold") { Some(ParamKind::Threshold) }
    else if same_text(target, "knee") { Some(ParamKind::Knee) }
    else if same_text(target, "ratio") { Some(ParamKind::Ratio) }
    else if same_text(target, "attack") { Some(ParamKind::Attack) }
    else if same_text(target, "release") { Some(ParamKind::Release) }
    else { None }
}

/// The position of the last `c` in `s`, or -1.
pub open spec fn last_index_of(s: Seq<char>, c: char) -> int
    decreases s.len(),
{
    if s.len() == 0 {
        -1
    } else if s.last() == c {
        s.len() - 1
    } else {
        last_index_of(s.drop_last(), c)
    }
}

/// The position of the first `c` in `s` at or after `from`, or -1.
pub open spec fn index_of_from(s: Seq<char>, c: char, from: int) -> int
    decreases s.len() - from,
{
    if from < 0 || from >= s.len() {
        -1
    } else if s[from] == c {
        from
    } else {
        index_of_from(s, c, from + 1)
    }
}

/// An ASCII decimal digit.
pub open spec fn is_digit_char(c: char) -> bool {
    '0' <= c <= '9'
}

/// The value of a string of decimal digits.
pub open spec fn digits_value(d: Seq<char>) -> int
    decreases d.len(),
{
    if d.len() == 0 { 0 } else { digits_value(d.drop_last()) * 10 + (d.last() as int - 48) }
}

/// A number's text without its leading `+`, if any.
pub open spec fn unsigned_part(s: Seq<char>) -> Seq<char> {
    if s.len() > 0 && s[0] == '+' { s.drop_first() } else { s }
}

/// What `str::parse::<usize>` gives: a `+` may lead; then at least one
/// decimal digit, and nothing else; and a value that fits.
pub open spec fn parse_usize(s: Seq<char>) -> Option<usize> {
    let d = unsigned_part(s);
    if d.len() == 0 || (exists|i: int| 0 <= i < d.len() && !is_digit_char(#[trigger] d[i])) || digits_value(d) > usize::MAX {
        None
    } else {
        Some(digits_value(d) as usize)
    }
}

/// The parameter an automation targets, with the label of the node it
/// belongs to and the index of the node among those it names.
#[derive(Debug, Clone, Copy, PartialEq, Eq)]
pub struct SequencerParamTarget<'a> {
    pub label: Option<&'a str>,
    pub param: ParamKind,
    pub index: Option<usize>,
}

/// The target that an automation target string names: `name`, `label.name`,
/// either with `#index` after it. A `#` or `.` with nothing on one side, an
/// index that is not a number, or an unknown name gives none.
pub open spec fn param_target(s: Seq<char>) -> Option<(Option<Seq<char>>, ParamKind, Option<usize>)> {
    let h = last_index_of(s, '#');
    let (t, index, ok) = if h >= 0 {
        let name = s.take(h);
        let index = parse_usize(s.skip(h + 1));
        (name, index, name.len() > 0 && index is Some)
    } else {
        (s, None, true)
    };
    let d = index_of_from(t, '.', 0);
    let (label, name, ok2) = if d >= 0 {
        let label = t.take(d);
        let name = t.skip(d + 1);
        (Some(label), name, label.len() > 0 && name.len() > 0)
    } else {
        (None, t, true)
    };
    if !ok || !ok2 {
        None
    } else {
        match param_of_name(name) {
            Some(p) => Some((label, p, index)),
            None => None,
        }
    }
}

/// The label of a target, as text.
pub open spec fn label_view(l: Option<&str>) -> Option<Seq<char>> {
    match l {
        Some(s) => Some(s@),
        None => None,
    }
}

fn last_hash(s: &str) -> (r: Option<usize>)
    ensures
        match r {
            Some(i) => i < s@.len() && i == last_index_of(s@, '#'),
            None => last_index_of(s@, '#') == -1,
        },
{
    let n = s.unicode_len();
    let mut k: usize = n;
    assert(s@.take(n as int) =~= s@);
    while k > 0
        invariant
            n == s@.len(),
            k <= n,
            last_index_of(s@, '#') == last_index_of(s@.take(k as int), '#'),
        decreases k,
    {
        assert(s@.take(k as int).drop_last() =~= s@.take(k - 1));
        if s.get_char(k - 1) == '#' {
            return Some(k - 1);
        }
        k = k - 1;
    }
    None
}

fn first_dot(s: &str) -> (r: Option<usize>)
    ensures
        match r {
            Some(i) => i < s@.len() && i == index_of_from(s@, '.', 0),
            None => index_of_from(s@, '.', 0) == -1,
        },
{
    let n = s.unicode_len();
    let mut k: usize = 0;
    while k < n
        invariant
            n == s@.len(),
            k <= n,
            index_of_from(s@, '.', 0) == index_of_from(s@, '.', k as int),
        decreases n - k,
    {
        if s.get_char(k) == '.' {
            return Some(k);
        }
        k = k + 1;
    }
    None
}

proof fn lemma_digits_grow(d: Seq<char>, k: int, n: int)
    requires
        0 <= k <= n <= d.len(),
        forall|i: int| 0 <= i < d.len() ==> is_digit_char(#[trigger] d[i]),
    ensures
        digits_value(d.take(n)) >= digits_value(d.take(k)),
        digits_value(d.take(n)) >= 0,
    decreases n,
{
    if n > 0 {
        assert(d.take(n).drop_last() =~= d.take(n - 1));
        assert(d.take(n).last() == d[n - 1]);
        assert(is_digit_char(d[n - 1]));
        if k < n {
            lemma_digits_grow(d, k, n - 1);
        } else {
            lemma_digits_grow(d, n - 1, n - 1);
        }
    } else {
        assert(d.take(0).len() == 0);
    }
}

/// Parses a decimal `usize` as `str::parse` does.
fn parse_index(s: &str) -> (r: Option<usize>)
    ensures
        r == parse_usize(s@),
{
    let n = s.unicode_len();
    let start: usize = if n > 0 && s.get_char(0) == '+' { 1 } else { 0 };
    let ghost d = unsigned_part(s@);
    assert(d =~= s@.skip(start as int));
    if start == n {
        return None;
    }
    let mut value: usize = 0;
    let mut k: usize = start;
    while k < n
        invariant
            n == s@.len(),
            start <= k <= n,
            start < n,
            d == s@.skip(start as int),
            d == unsigned_part(s@),
            forall|i: int| 0 <= i < k - start ==> is_digit_char(#[trigger] d[i]),
            value == digits_value(d.take(k - start)),
        decreases n - k,
    {
        let c = s.get_char(k);
        assert(c == d[k - start]);
        if !('0' <= c && c <= '9') {
            assert(!is_digit_char(d[k - start]));
            return None;
        }
        let digit = (c as u32 - 48) as usize;
        assert(d.take(k + 1 - start).drop_last() =~= d.take(k - start));
        match value.checked_mul(10) {
            None => {
                proof {
                    assert(digits_value(d.take(k + 1 - start)) > usize::MAX);
                    let all_digits = forall|i: int| 0 <= i < d.len() ==> is_digit_char(#[trigger] d[i]);
                    if all_digits {
                        lemma_digits_grow(d, k + 1 - start, d.len() as int);
                        assert(d.take(d.len() as int) =~= d);
                    }
                }
                return None;
            },
            Some(tens) => match tens.checked_add(digit) {
                None => {
                    proof {
                        assert(digits_value(d.take(k + 1 - start)) > usize::MAX);
                        let all_digits = forall|i: int| 0 <= i < d.len() ==> is_digit_char(#[trigger] d[i]);
                        if all_digits {
                            lemma_digits_grow(d, k + 1 - start, d.len() as int);
                            assert(d.take(d.len() as int) =~= d);
                        }
                    }
                    return None;
                },
                Some(v) => {
                    value = v;
                },
            },
        }
        k = k + 1;
    }
    assert(d.take(n - start) =~= d);
    Some(value)
}

/// Reads an automation target string: `name`, `label.name`, either with
/// `#index` after it.
pub fn sequencer_param_target(target: &str) -> (r: Option<SequencerParamTarget<'_>>)
    ensures
        match param_target(target@) {
            Some((label, param, index)) => r matches Some(t) && label_view(t.label) == label && t.param == param
                && t.index == index,
            None => r is None,
        },
{
    let n = target.unicode_len();
    let (t, index): (&str, Option<usize>) = match last_hash(target) {
        Some(h) => {
            let name = target.substring_char(0, h);
            if h == 0 {
                return None;
            }
            let rest = target.substring_char(h + 1, n);
            match parse_index(rest) {
                None => {
                    return None;
                },
                Some(i) => (name, Some(i)),
            }
        },
        None => (target, None),
    };
    let tn = t.unicode_len();
    let (label, name): (Option<&str>, &str) = match first_dot(t) {
        Some(d) => {
            if d == 0 || d + 1 == tn {
                return None;
            }
            (Some(t.substring_char(0, d)), t.substring_char(d + 1, tn))
        },
        None => (None, t),
    };
    match named_sequencer_param(name) {
        Some(param) => Some(SequencerParamTarget { label, param, index }),
        None => None,
    }
}

impl<'a> SequencerParamTarget<'a> {
    /// Whether a node with the given label is one the target names: any
    /// node when the target has no label, else the nodes of that label.
    pub fn matches_label(&self, label: Option<&str>) -> (r: bool)
        ensures
            r == match self.label {
                None => true,
                Some(t) => label matches Some(l) && l@ == t@,
            },
    {
        match self.label {
            None => true,
            Some(t) => match label {
                Some(l) => same_text(l, t),
                None => false,
            },
        }
    }
}

proof fn lemma_last_index_absent(s: Seq<char>, c: char)
    requires
        !s.contains(c),
    ensures
        last_index_of(s, c) == -1,
    decreases s.len(),
{
    if s.len() > 0 {
        assert(s.drop_last().len() < s.len());
        assert(!s.drop_last().contains(c)) by {
            if s.drop_last().contains(c) {
                let i = choose|i: int| 0 <= i < s.drop_last().len() && s.drop_last()[i] == c;
                assert(s[i] == c);
            }
        }
        assert(s.last() == s[s.len() - 1]);
        lemma_last_index_absent(s.drop_last(), c);
    }
}

/// Text after the last `c` that holds no `c` leaves the last `c` where it is.
proof fn lemma_last_index_tail(a: Seq<char>, b: Seq<char>, c: char)
    requires
        !b.contains(c),
    ensures
        last_index_of(a.push(c) + b, c) == a.len(),
    decreases b.len(),
{
    if b.len() == 0 {
        assert(a.push(c) + b =~= a.push(c));
    } else {
        let b1 = b.drop_last();
        assert(!b1.contains(c)) by {
            if b1.contains(c) {
                let i = choose|i: int| 0 <= i < b1.len() && b1[i] == c;
                assert(b[i] == c);
            }
        }
        assert((a.push(c) + b).drop_last() =~= a.push(c) + b1);
        assert((a.push(c) + b).last() == b[b.len() - 1]);
        lemma_last_index_tail(a, b1, c);
    }
}

proof fn lemma_index_of_first(s: Seq<char>, c: char, from: int, at: int)
    requires
        0 <= from <= at < s.len(),
        s[at] == c,
        forall|j: int| from <= j < at ==> s[j] != c,
    ensures
        index_of_from(s, c, from) == at,
    decreases at - from,
{
    if from < at {
        lemma_index_of_first(s, c, from + 1, at);
    }
}

proof fn lemma_index_absent(s: Seq<char>, c: char, from: int)
    requires
        0 <= from,
        !s.contains(c),
    ensures
        index_of_from(s, c, from) == -1,
    decreases s.len() - from,
{
    if from < s.len() {
        assert(s[from] != c);
        lemma_index_absent(s, c, from + 1);
    }
}

/// A text of decimal digits that fits reads as its value.
proof fn lemma_parse_digits(d: Seq<char>)
    requires
        d.len() > 0,
        forall|i: int| 0 <= i < d.len() ==> is_digit_char(#[trigger] d[i]),
        digits_value(d) <= usize::MAX,
    ensures
        parse_usize(d) == Some(digits_value(d) as usize),
{
    assert(d[0] != '+');
    assert(unsigned_part(d) == d);
}

/// Every parameter name has at least one character.
proof fn lemma_names_nonempty(s: Seq<char>)
    requires
        param_of_name(s) is Some,
    ensures
        s.len() > 0,
{
    reveal_strlit("gain");
    reveal_strlit("frequency");
    reveal_strlit("detune");
    reveal_strlit("offset");
    reveal_strlit("playbackRate");
    reveal_strlit("playback_rate");
    reveal_strlit("pan");
    reveal_strlit("delayTime");
    reveal_strlit("delay_time");
    reveal_strlit("q");
    reveal_strlit("Q");
    reveal_strlit("filterGain");
    reveal_strlit("filter_gain");
    reveal_strlit("threshold");
    reveal_strlit("knee");
    reveal_strlit("ratio");
    reveal_strlit("attack");
    reveal_strlit("release");
}

/// An automation target is built from a parameter's name, optionally
/// after a node label and a `.`, optionally followed by `#` and a decimal
/// index: it resolves to that label, that parameter and that index.
#[verifier::rlimit(50)]
#[verifier::spinoff_prover]
pub proof fn law_param_target_grammar(label: Seq<char>, name: Seq<char>, k: ParamKind, digits: Seq<char>)
    requires
        param_of_name(name) == Some(k),
        !name.contains('.'),
        !name.contains('#'),
        label.len() > 0,
        !label.contains('.'),
        !label.contains('#'),
        digits.len() > 0,
        forall|i: int| 0 <= i < digits.len() ==> is_digit_char(#[trigger] digits[i]),
        digits_value(digits) <= usize::MAX,
    ensures
        param_target(name) == Some((None::<Seq<char>>, k, None::<usize>)),
        param_target(label.push('.') + name) == Some((Some(label), k, None::<usize>)),
        param_target(name.push('#') + digits) == Some((None::<Seq<char>>, k, Some(digits_value(digits) as usize))),
        param_target((label.push('.') + name).push('#') + digits)
            == Some((Some(label), k, Some(digits_value(digits) as usize))),
{
    lemma_names_nonempty(name);
    assert(!digits.contains('#')) by {
        if digits.contains('#') {
            let i = choose|i: int| 0 <= i < digits.len() && digits[i] == '#';
            assert(is_digit_char(digits[i]));
        }
    }
    lemma_parse_digits(digits);
    // name alone
    lemma_last_index_absent(name, '#');
    lemma_index_absent(name, '.', 0);
    // label.name
    let ln = label.push('.') + name;
    assert(!ln.contains('#')) by {
        if ln.contains('#') {
            let i = choose|i: int| 0 <= i < ln.len() && ln[i] == '#';
            if i < label.len() {
                assert(label[i] == '#');
            } else if i > label.len() {
                assert(name[i - label.len() - 1] == '#');
            }
        }
    }
    lemma_last_index_absent(ln, '#');
    assert forall|j: int| 0 <= j < label.len() implies ln[j] != '.' by {
        assert(ln[j] == label[j]);
    }
    lemma_index_of_first(ln, '.', 0, label.len() as int);
    assert(ln.take(label.len() as int) =~= label);
    assert(ln.skip(label.len() + 1int) =~= name);
    // name#digits
    let nd = name.push('#') + digits;
    lemma_last_index_tail(name, digits, '#');
    assert(nd.take(name.len() as int) =~= name);
    assert(nd.skip(name.len() + 1int) =~= digits);
    // label.name#digits
    let lnd = ln.push('#') + digits;
    lemma_last_index_tail(ln, digits, '#');
    assert(lnd.take(ln.len() as int) =~= ln);
    assert(lnd.skip(ln.len() + 1int) =~= digits);
}

} // verus!
