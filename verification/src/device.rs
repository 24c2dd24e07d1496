//! Device capability negotiation: which standard sample rates and buffer
//! sizes a pair of devices can share, and which of them to start with.
//!
//! Devices are described by plain values ([`DeviceInfo`], [`ConfigRange`]);
//! enumerating them is the application's job.
use vstd::prelude::*;

verus! {

/// Standard sample rates offered in the GUI, ascending.
pub open spec fn standard_rates() -> Seq<u32> {
    seq![44100u32, 48000u32, 88200u32, 96000u32, 176400u32, 192000u32]
}

/// Power-of-two buffer sizes offered in the GUI (besides "Default"), ascending.
pub open spec fn pow2_buffer_sizes() -> Seq<u32> {
    seq![32u32, 64u32, 128u32, 256u32, 512u32, 1024u32, 2048u32]
}

/// Sample rate used when the devices share no standard rate.
pub const FALLBACK_SAMPLE_RATE: u32 = 48000;

fn standard_sample_rates() -> (r: Vec<u32>)
    ensures
        r@ == standard_rates(),
{
    let r = vec![44100u32, 48000u32, 88200u32, 96000u32, 176400u32, 192000u32];
    assert(r@ =~= standard_rates());
    r
}

fn pow2_sizes() -> (r: Vec<u32>)
    ensures
        r@ == pow2_buffer_sizes(),
{
    let r = vec![32u32, 64u32, 128u32, 256u32, 512u32, 1024u32, 2048u32];
    assert(r@ =~= pow2_buffer_sizes());
    r
}

/// Sample formats a device may report.
#[derive(Clone, Copy, Debug, PartialEq, Eq, Structural)]
pub enum SampleFormat {
    I16,
    F32,
    /// Any format the stream builder cannot convert from.
    Other,
}

/// One supported stream configuration range reported by a device.
#[derive(Clone, Copy, Debug)]
pub struct ConfigRange {
    pub format: SampleFormat,
    pub min_sample_rate: u32,
    pub max_sample_rate: u32,
    /// Minimum and maximum buffer size in frames, or `None` when unknown.
    pub buffer_size: Option<(u32, u32)>,
}

/// GUI-presentable information about a single audio device.
#[derive(Clone, Debug)]
pub struct DeviceInfo {
    /// Human-readable name.
    pub name: String,
    /// Serialisable device identity string.
    pub id_string: String,
    /// Standard sample rates supported by this device, ascending.
    pub supported_sample_rates: Vec<u32>,
    /// Minimum and maximum buffer size (frames), or `None` if unknown.
    pub buffer_size_range: Option<(u32, u32)>,
}

/// The range is one the stream builder can use (F32 or I16 samples).
pub open spec fn usable(c: ConfigRange) -> bool {
    c.format == SampleFormat::F32 || c.format == SampleFormat::I16
}

/// Some usable range covers `rate`.
pub open spec fn rate_covered(configs: Seq<ConfigRange>, rate: u32) -> bool {
    exists|i: int|
        0 <= i < configs.len() && usable(#[trigger] configs[i]) && configs[i].min_sample_rate
            <= rate <= configs[i].max_sample_rate
}

/// Smallest range holding both ranges (or the one that exists).
pub open spec fn hull(acc: Option<(u32, u32)>, r: (u32, u32)) -> Option<(u32, u32)> {
    match acc {
        None => Some(r),
        Some((lo, hi)) => Some(
            (if r.0 < lo {
                r.0
            } else {
                lo
            }, if r.1 > hi {
                r.1
            } else {
                hi
            }),
        ),
    }
}

/// Hull of the buffer-size ranges reported by the usable ranges among
/// `configs` (`None` when none reports one).
pub open spec fn buffer_hull(configs: Seq<ConfigRange>) -> Option<(u32, u32)>
    decreases configs.len(),
{
    if configs.len() == 0 {
        None
    } else {
        let prev = buffer_hull(configs.drop_last());
        let c = configs.last();
        if usable(c) && c.buffer_size is Some {
            hull(prev, c.buffer_size->0)
        } else {
            prev
        }
    }
}

/// Which standard rates some usable range covers, ascending.
pub open spec fn supported_rates(configs: Seq<ConfigRange>) -> Seq<u32> {
    standard_rates().filter(|rate: u32| rate_covered(configs, rate))
}

/// Derive a device's capabilities from its supported configuration ranges:
/// the standard sample rates that at least one F32/I16 range covers, and the
/// hull of the buffer-size ranges those ranges report.
pub fn extract_device_capabilities(configs: &[ConfigRange]) -> (r: (Vec<u32>, Option<(u32, u32)>))
    ensures
        r.0@ == supported_rates(configs@),
        r.1 == buffer_hull(configs@),
{
    let rates = standard_sample_rates();
    let n_rates = rates.len();
    let mut rate_supported: Vec<bool> = vec![false, false, false, false, false, false];
    let mut hull_acc: Option<(u32, u32)> = None;
    let mut k: usize = 0;
    while k < configs.len()
        invariant
            k <= configs@.len(),
            rates@ == standard_rates(),
            n_rates == 6,
            rate_supported@.len() == 6,
            forall|i: int|
                0 <= i < 6 ==> #[trigger] rate_supported@[i] == rate_covered(
                    configs@.take(k as int),
                    rates@[i],
                ),
            hull_acc == buffer_hull(configs@.take(k as int)),
        decreases configs@.len() - k,
    {
        let cfg = configs[k];
        let ghost prefix = configs@.take(k as int);
        let ghost next = configs@.take(k + 1);
        assert(next.drop_last() =~= prefix);
        assert(next.last() == cfg);
        if cfg.format == SampleFormat::F32 || cfg.format == SampleFormat::I16 {
            let lo = cfg.min_sample_rate;
            let hi = cfg.max_sample_rate;
            let mut i: usize = 0;
            while i < n_rates
                invariant
                    i <= n_rates,
                    n_rates == 6,
                    rates@ == standard_rates(),
                    rate_supported@.len() == 6,
                    lo == cfg.min_sample_rate,
                    hi == cfg.max_sample_rate,
                    usable(cfg),
                    next == configs@.take(k + 1),
                    prefix == configs@.take(k as int),
                    k < configs@.len(),
                    next[k as int] == cfg,
                    forall|j: int|
                        0 <= j < 6 ==> #[trigger] rate_supported@[j] == if j < i {
                            rate_covered(next, rates@[j])
                        } else {
                            rate_covered(prefix, rates@[j])
                        },
                decreases n_rates - i,
            {
                let rate = rates[i];
                proof {
                    if rate_covered(prefix, rate) {
                        let w = choose|w: int|
                            0 <= w < prefix.len() && usable(#[trigger] prefix[w])
                                && prefix[w].min_sample_rate <= rate <= prefix[w].max_sample_rate;
                        assert(next[w] == prefix[w]);
                    }
                    if rate_covered(next, rate) && !(lo <= rate && rate <= hi) {
                        let w = choose|w: int|
                            0 <= w < next.len() && usable(#[trigger] next[w])
                                && next[w].min_sample_rate <= rate <= next[w].max_sample_rate;
                        assert(prefix[w] == next[w]);
                    }
                }
                if rate >= lo && rate <= hi {
                    rate_supported.set(i, true);
                }
                i = i + 1;
            }
            match cfg.buffer_size {
                Some((bmin, bmax)) => {
                    hull_acc =
                    match hull_acc {
                        None => Some((bmin, bmax)),
                        Some((lo_prev, hi_prev)) => Some(
                            (if bmin < lo_prev {
                                bmin
                            } else {
                                lo_prev
                            }, if bmax > hi_prev {
                                bmax
                            } else {
                                hi_prev
                            }),
                        ),
                    };
                },
                None => {},
            }
        } else {
            proof {
                assert forall|j: int| 0 <= j < 6 implies #[trigger] rate_supported@[j]
                    == rate_covered(next, rates@[j]) by {
                    let rate = rates@[j];
                    if rate_covered(prefix, rate) {
                        let w = choose|w: int|
                            0 <= w < prefix.len() && usable(#[trigger] prefix[w])
                                && prefix[w].min_sample_rate <= rate
                                <= prefix[w].max_sample_rate;
                        assert(next[w] == prefix[w]);
                    }
                    if rate_covered(next, rate) {
                        let w = choose|w: int|
                            0 <= w < next.len() && usable(#[trigger] next[w])
                                && next[w].min_sample_rate <= rate <= next[w].max_sample_rate;
                        assert(prefix[w] == next[w]);
                    }
                }
            }
        }
        k = k + 1;
    }
    assert(configs@.take(configs@.len() as int) =~= configs@);
    let mut supported: Vec<u32> = Vec::new();
    let mut i: usize = 0;
    while i < n_rates
        invariant
            i <= n_rates,
            n_rates == 6,
            rates@ == standard_rates(),
            rate_supported@.len() == 6,
            forall|j: int|
                0 <= j < 6 ==> #[trigger] rate_supported@[j] == rate_covered(configs@, rates@[j]),
            supported@ == rates@.take(i as int).filter(|rate: u32| rate_covered(configs@, rate)),
        decreases n_rates - i,
    {
        let rate = rates[i];
        proof {
            rates@.take(i as int).lemma_filter_push(
                rate,
                |rate: u32| rate_covered(configs@, rate),
            );
            assert(rates@.take(i + 1) =~= rates@.take(i as int).push(rate));
        }
        if rate_supported[i] {
            supported.push(rate);
        }
        i = i + 1;
    }
    assert(rates@.take(6) =~= rates@);
    (supported, hull_acc)
}

/// Smallest buffer size a config reports (0 when it reports none).
pub open spec fn buffer_min(c: ConfigRange) -> u32 {
    match c.buffer_size {
        Some((lo, _)) => lo,
        None => 0,
    }
}

/// Largest buffer size a config reports (0 when it reports none).
pub open spec fn buffer_max(c: ConfigRange) -> u32 {
    match c.buffer_size {
        Some((_, hi)) => hi,
        None => 0,
    }
}

/// Config `i` is usable and reports a buffer-size range.
pub open spec fn reports_buffer(configs: Seq<ConfigRange>, i: int) -> bool {
    0 <= i < configs.len() && usable(configs[i]) && configs[i].buffer_size is Some
}

/// The buffer range derived from a device's configs is the smallest range
/// holding every range its usable configs report: it covers each of them,
/// its minimum is some reported minimum and its maximum some reported
/// maximum; and there is none exactly when no usable config reports one.
pub proof fn lemma_buffer_hull_is_union(configs: Seq<ConfigRange>)
    ensures
        match buffer_hull(configs) {
            None => forall|i: int| !#[trigger] reports_buffer(configs, i),
            Some((lo, hi)) => {
                &&& forall|i: int|
                    #[trigger] reports_buffer(configs, i) ==> lo <= buffer_min(configs[i])
                        && buffer_max(configs[i]) <= hi
                &&& exists|i: int|
                    #[trigger] reports_buffer(configs, i) && buffer_min(configs[i]) == lo
                &&& exists|i: int|
                    #[trigger] reports_buffer(configs, i) && buffer_max(configs[i]) == hi
            },
        },
    decreases configs.len(),
{
    if configs.len() > 0 {
        let p = configs.drop_last();
        lemma_buffer_hull_is_union(p);
        let last = configs.len() - 1;
        let c = configs[last];
        assert forall|i: int| 0 <= i < p.len() implies reports_buffer(configs, i)
            == #[trigger] reports_buffer(p, i) && configs[i] == p[i] by {
            assert(configs[i] == p[i]);
        }
        assert forall|i: int| #[trigger] reports_buffer(configs, i) && i != last implies reports_buffer(
            p,
            i,
        ) && configs[i] == p[i] by {
            assert(configs[i] == p[i]);
        }
        let rep = usable(c) && c.buffer_size is Some;
        assert(rep == reports_buffer(configs, last));
        match buffer_hull(p) {
            None => {
                if rep {
                    assert(buffer_hull(configs) == Some((buffer_min(c), buffer_max(c))));
                    assert(reports_buffer(configs, last));
                }
            },
            Some((lo, hi)) => {
                let i0 = choose|i: int| #[trigger] reports_buffer(p, i) && buffer_min(p[i]) == lo;
                let i1 = choose|i: int| #[trigger] reports_buffer(p, i) && buffer_max(p[i]) == hi;
                assert(reports_buffer(configs, i0) && configs[i0] == p[i0]);
                assert(reports_buffer(configs, i1) && configs[i1] == p[i1]);
                if rep {
                    assert(reports_buffer(configs, last));
                }
            },
        }
    }
}

/// `v` holds `x`.
fn contains_rate(v: &[u32], x: u32) -> (r: bool)
    ensures
        r == v@.contains(x),
{
    let mut i: usize = 0;
    while i < v.len()
        invariant
            i <= v@.len(),
            forall|j: int| 0 <= j < i ==> v@[j] != x,
        decreases v@.len() - i,
    {
        if v[i] == x {
            assert(v@[i as int] == x);
            return true;
        }
        i = i + 1;
    }
    false
}

/// Sample rates both devices support, in the input device's order.
pub open spec fn common_rates(input: Seq<u32>, output: Seq<u32>) -> Seq<u32> {
    input.filter(|r: u32| output.contains(r))
}

/// Return the intersection of the two devices' supported sample rates,
/// preserving the input device's (ascending) order.
pub fn compute_common_sample_rates(input: &DeviceInfo, output: &DeviceInfo) -> (r: Vec<u32>)
    ensures
        r@ == common_rates(input.supported_sample_rates@, output.supported_sample_rates@),
{
    let ins = &input.supported_sample_rates;
    let outs = &output.supported_sample_rates;
    let mut result: Vec<u32> = Vec::new();
    let mut i: usize = 0;
    while i < ins.len()
        invariant
            i <= ins@.len(),
            result@ == ins@.take(i as int).filter(|r: u32| outs@.contains(r)),
        decreases ins@.len() - i,
    {
        let rate = ins[i];
        proof {
            ins@.take(i as int).lemma_filter_push(rate, |r: u32| outs@.contains(r));
            assert(ins@.take(i + 1) =~= ins@.take(i as int).push(rate));
        }
        if contains_rate(outs.as_slice(), rate) {
            result.push(rate);
        }
        i = i + 1;
    }
    assert(ins@.take(ins@.len() as int) =~= ins@);
    result
}

/// Buffer-size range both devices accept: the overlap of two reported
/// ranges (none when they do not overlap); a device that reports no range
/// accepts any size.
pub open spec fn effective_range(a: Option<(u32, u32)>, b: Option<(u32, u32)>) -> Option<
    (u32, u32),
> {
    match (a, b) {
        (Some((in_lo, in_hi)), Some((out_lo, out_hi))) => {
            let lo = if in_lo >= out_lo {
                in_lo
            } else {
                out_lo
            };
            let hi = if in_hi <= out_hi {
                in_hi
            } else {
                out_hi
            };
            if lo <= hi {
                Some((lo, hi))
            } else {
                None
            }
        },
        (Some(r), None) => Some(r),
        (None, Some(r)) => Some(r),
        (None, None) => None,
    }
}

/// The power-of-two sizes inside a range, ascending.
pub open spec fn sizes_in(range: Option<(u32, u32)>) -> Seq<u32> {
    match range {
        None => Seq::empty(),
        Some((lo, hi)) => pow2_buffer_sizes().filter(|s: u32| lo <= s && s <= hi),
    }
}

/// "Default" followed by the sizes in the effective range.
pub open spec fn available_sizes(a: Option<(u32, u32)>, b: Option<(u32, u32)>) -> Seq<
    Option<u32>,
> {
    seq![None].add(sizes_in(effective_range(a, b)).map_values(|s: u32| Some(s)))
}

/// Return the buffer sizes both devices support: `None` (meaning the
/// backend's default) first, then the powers of two within their
/// overlapping range, ascending.  A device with no reported range is treated
/// as unconstrained; when both report none, only `[None]` is returned.
pub fn compute_available_buffer_sizes(input: &DeviceInfo, output: &DeviceInfo) -> (r: Vec<Option<u32>>)
    ensures
        r@ == available_sizes(input.buffer_size_range, output.buffer_size_range),
{
    let mut result: Vec<Option<u32>> = vec![None];
    let overlap: Option<(u32, u32)> = match (
        input.buffer_size_range,
        output.buffer_size_range,
    ) {
        (Some((in_lo, in_hi)), Some((out_lo, out_hi))) => {
            let lo = if in_lo >= out_lo {
                in_lo
            } else {
                out_lo
            };
            let hi = if in_hi <= out_hi {
                in_hi
            } else {
                out_hi
            };
            if lo <= hi {
                Some((lo, hi))
            } else {
                None
            }
        },
        (Some(r), None) => Some(r),
        (None, Some(r)) => Some(r),
        (None, None) => None,
    };
    assert(overlap == effective_range(input.buffer_size_range, output.buffer_size_range));
    match overlap {
        None => {
            assert(result@ =~= available_sizes(
                input.buffer_size_range,
                output.buffer_size_range,
            ));
        },
        Some((lo, hi)) => {
            let sizes = pow2_sizes();
            let ghost pred = |s: u32| lo <= s && s <= hi;
            let mut i: usize = 0;
            while i < sizes.len()
                invariant
                    i <= sizes@.len(),
                    sizes@ == pow2_buffer_sizes(),
                    pred == (|s: u32| lo <= s && s <= hi),
                    result@ == seq![None].add(
                        sizes@.take(i as int).filter(pred).map_values(|s: u32| Some(s)),
                    ),
                decreases sizes@.len() - i,
            {
                let size = sizes[i];
                proof {
                    sizes@.take(i as int).lemma_filter_push(size, pred);
                    assert(sizes@.take(i + 1) =~= sizes@.take(i as int).push(size));
                }
                if size >= lo && size <= hi {
                    let ghost before = sizes@.take(i as int).filter(pred);
                    result.push(Some(size));
                    assert(before.push(size).map_values(|s: u32| Some(s)) =~= before.map_values(
                        |s: u32| Some(s),
                    ).push(Some(size)));
                    assert(result@ =~= seq![None].add(
                        sizes@.take(i + 1).filter(pred).map_values(|s: u32| Some(s)),
                    ));
                }
                i = i + 1;
            }
            assert(sizes@.take(sizes@.len() as int) =~= sizes@);
        },
    }
    result
}

/// `s` lies within a reported buffer-size range; a device that reports no
/// range constrains nothing.
pub open spec fn within_range(range: Option<(u32, u32)>, s: u32) -> bool {
    match range {
        Some((lo, hi)) => lo <= s && s <= hi,
        None => true,
    }
}

/// Keeping some elements of a strictly ascending sequence keeps it strictly
/// ascending, and keeps only elements of it.
proof fn lemma_filter_ascending(v: Seq<u32>, pred: spec_fn(u32) -> bool)
    requires
        forall|i: int, j: int| 0 <= i < j < v.len() ==> v[i] < v[j],
    ensures
        forall|i: int, j: int|
            0 <= i < j < v.filter(pred).len() ==> v.filter(pred)[i] < v.filter(pred)[j],
        forall|i: int| 0 <= i < v.filter(pred).len() ==> v.contains(#[trigger] v.filter(pred)[i]),
    decreases v.len(),
{
    if v.len() > 0 {
        let p = v.drop_last();
        let x = v.last();
        assert(v =~= p.push(x));
        p.lemma_filter_push(x, pred);
        lemma_filter_ascending(p, pred);
        let fp = p.filter(pred);
        assert forall|i: int| 0 <= i < fp.len() implies #[trigger] fp[i] < x by {
            assert(p.contains(fp[i]));
            let k = choose|k: int| 0 <= k < p.len() && p[k] == fp[i];
            assert(v[k] == p[k]);
        }
        assert forall|i: int| 0 <= i < v.filter(pred).len() implies v.contains(
            #[trigger] v.filter(pred)[i],
        ) by {
            if i < fp.len() {
                assert(p.contains(fp[i]));
                let k = choose|k: int| 0 <= k < p.len() && p[k] == fp[i];
                assert(v[k] == p[k]);
            } else {
                assert(v[v.len() - 1] == x);
            }
        }
    }
}

/// The buffer sizes offered for a device pair are "Default" followed by
/// exactly the power-of-two sizes that lie within every range the devices
/// report, ascending; with no range reported, only "Default" is offered.
pub proof fn lemma_available_sizes_fit_both(a: Option<(u32, u32)>, b: Option<(u32, u32)>)
    ensures
        ({
            let avail = available_sizes(a, b);
            &&& avail.len() >= 1
            &&& avail[0] == None::<u32>
            &&& forall|k: int|
                1 <= k < avail.len() ==> (#[trigger] avail[k]) is Some && pow2_buffer_sizes().contains(
                    avail[k]->0,
                ) && within_range(a, avail[k]->0) && within_range(b, avail[k]->0)
            &&& forall|k: int, l: int| 1 <= k < l < avail.len() ==> avail[k]->0 < avail[l]->0
            &&& (a is Some || b is Some) ==> forall|s: u32|
                pow2_buffer_sizes().contains(s) && within_range(a, s) && within_range(b, s)
                    ==> #[trigger] avail.contains(Some(s))
            &&& (a is None && b is None) ==> avail == seq![None::<u32>]
        }),
{
    let avail = available_sizes(a, b);
    let eff = effective_range(a, b);
    let sizes = sizes_in(eff);
    let mapped = sizes.map_values(|x: u32| Some(x));
    assert(avail =~= seq![None].add(mapped));
    let pw = pow2_buffer_sizes();
    assert forall|i: int, j: int| 0 <= i < j < pw.len() implies pw[i] < pw[j] by {}
    // Within the effective range is within both reported ranges.
    assert forall|x: u32| (match eff {
        Some((lo, hi)) => lo <= x && x <= hi,
        None => false,
    }) <==> (within_range(a, x) && within_range(b, x) && (a is Some || b is Some)) by {}
    match eff {
        None => {
            assert(sizes =~= Seq::<u32>::empty());
            assert(avail =~= seq![None::<u32>]);
            assert forall|x: u32|
                pow2_buffer_sizes().contains(x) && within_range(a, x) && within_range(b, x) && (a is Some
                    || b is Some) implies #[trigger] avail.contains(Some(x)) by {}
        },
        Some((lo, hi)) => {
            let pred = |x: u32| lo <= x && x <= hi;
            assert(sizes == pw.filter(pred));
            lemma_filter_ascending(pw, pred);
            pw.filter_lemma(pred);
            assert forall|k: int| 1 <= k < avail.len() implies (#[trigger] avail[k]) is Some
                && pow2_buffer_sizes().contains(avail[k]->0) && within_range(a, avail[k]->0)
                && within_range(b, avail[k]->0) by {
                assert(avail[k] == Some(sizes[k - 1]));
                assert(pred(sizes[k - 1]));
            }
            assert forall|k: int, l: int| 1 <= k < l < avail.len() implies avail[k]->0
                < avail[l]->0 by {
                assert(avail[k] == Some(sizes[k - 1]));
                assert(avail[l] == Some(sizes[l - 1]));
            }
            assert forall|x: u32|
                pow2_buffer_sizes().contains(x) && within_range(a, x) && within_range(
                    b,
                    x,
                ) implies #[trigger] avail.contains(Some(x)) by {
                let i = choose|i: int| 0 <= i < pw.len() && pw[i] == x;
                assert(pred(pw[i]));
                assert(sizes.contains(x));
                let k = choose|k: int| 0 <= k < sizes.len() && sizes[k] == x;
                assert(avail[k + 1] == Some(x));
            }
        },
    }
}

/// The sample rate to start with: the saved rate if both devices support
/// it, else the first common rate, else 48000.
pub open spec fn chosen_sample_rate(config_rate: Option<u32>, common: Seq<u32>) -> u32 {
    if config_rate is Some && common.contains(config_rate->0) {
        config_rate->0
    } else if common.len() > 0 {
        common[0]
    } else {
        FALLBACK_SAMPLE_RATE
    }
}

/// Choose a sample rate: prefer the config value if it is in `common_rates`,
/// otherwise take the first common rate, otherwise 48000.
pub fn pick_sample_rate(config_rate: Option<u32>, common_rates: &[u32]) -> (r: u32)
    ensures
        r == chosen_sample_rate(config_rate, common_rates@),
{
    if let Some(rate) = config_rate {
        if contains_rate(common_rates, rate) {
            return rate;
        }
    }
    if common_rates.len() > 0 {
        common_rates[0]
    } else {
        FALLBACK_SAMPLE_RATE
    }
}

/// The buffer size to start with: the saved size if it is available, else
/// `None` (the backend's default).
pub open spec fn chosen_buffer_size(config_buf: Option<u32>, available: Seq<Option<u32>>) -> Option<
    u32,
> {
    match config_buf {
        Some(b) => if available.contains(Some(b)) {
            Some(b)
        } else {
            None
        },
        None => None,
    }
}

/// Choose a buffer size: prefer the config value if it appears in
/// `available`, otherwise `None` (Default).
pub fn pick_buffer_size(config_buf: Option<u32>, available: &[Option<u32>]) -> (r: Option<u32>)
    ensures
        r == chosen_buffer_size(config_buf, available@),
{
    if let Some(b) = config_buf {
        let mut i: usize = 0;
        while i < available.len()
            invariant
                config_buf == Some(b),
                i <= available@.len(),
                forall|j: int| 0 <= j < i ==> available@[j] != Some(b),
            decreases available@.len() - i,
        {
            let found = match available[i] {
                Some(x) => x == b,
                None => false,
            };
            if found {
                assert(available@[i as int] == Some(b));
                assert(available@.contains(Some(b)));
                return Some(b);
            }
            i = i + 1;
        }
    }
    None
}

/// The buffer-size list always offers "Default" first, and a saved size
/// survives negotiation exactly when it is a power of two in the range both
/// devices accept.
pub proof fn lemma_saved_buffer_size_survives(
    a: Option<(u32, u32)>,
    b: Option<(u32, u32)>,
    saved: u32,
)
    ensures
        available_sizes(a, b)[0] == None::<u32>,
        chosen_buffer_size(Some(saved), available_sizes(a, b)) == Some(saved) <==> sizes_in(
            effective_range(a, b),
        ).contains(saved),
        chosen_buffer_size(None, available_sizes(a, b)) == None::<u32>,
{
    let sizes = sizes_in(effective_range(a, b));
    let mapped = sizes.map_values(|s: u32| Some(s));
    let avail = available_sizes(a, b);
    assert(avail =~= seq![None].add(mapped));
    if sizes.contains(saved) {
        let i = choose|i: int| 0 <= i < sizes.len() && sizes[i] == saved;
        assert(avail[i + 1] == Some(saved));
    }
    if avail.contains(Some(saved)) {
        let i = choose|i: int| 0 <= i < avail.len() && avail[i] == Some(saved);
        assert(i >= 1);
        assert(sizes[i - 1] == saved);
    }
}

/// Every negotiated common rate is supported by both devices, and the rate
/// picked at start-up is a common rate whenever there is one.
pub proof fn lemma_common_rates_shared(input: Seq<u32>, output: Seq<u32>, saved: Option<u32>)
    ensures
        forall|r: u32|
            #[trigger] common_rates(input, output).contains(r) ==> input.contains(r)
                && output.contains(r),
        common_rates(input, output).len() > 0 ==> common_rates(input, output).contains(
            chosen_sample_rate(saved, common_rates(input, output)),
        ),
        common_rates(input, output).len() == 0 ==> chosen_sample_rate(
            saved,
            common_rates(input, output),
        ) == FALLBACK_SAMPLE_RATE,
{
    let pred = |r: u32| output.contains(r);
    let common = common_rates(input, output);
    assert forall|r: u32| #[trigger] common.contains(r) implies input.contains(r) && output.contains(
        r,
    ) by {
        input.lemma_filter_contains_rev(pred, r);
        let i = choose|i: int| 0 <= i < common.len() && common[i] == r;
        input.lemma_filter_pred(pred, i);
    }
    if common.len() > 0 {
        assert(common.contains(common[0]));
    }
}

/// What `str::to_lowercase` returns for a string: its Unicode lowercase
/// mapping.
pub uninterp spec fn lowercase(s: Seq<char>) -> Seq<char>;

/// `str::to_lowercase`: the lowercase mapping of `s`, named [`lowercase`].
#[verifier::external_body]
fn to_lowercase(s: &str) -> (r: String)
    ensures
        r@ == lowercase(s@),
{
    s.to_lowercase()
}

/// `needle` occurs as a contiguous run of characters in `haystack`.
pub open spec fn has_substring(haystack: Seq<char>, needle: Seq<char>) -> bool {
    exists|i: int|
        0 <= i && i + needle.len() <= haystack.len() && #[trigger] haystack.subrange(
            i,
            i + needle.len(),
        ) == needle
}

/// `str::contains` with a string pattern: whether `needle` occurs in
/// `haystack` as a contiguous run of characters.
#[verifier::external_body]
fn str_contains(haystack: &str, needle: &str) -> (r: bool)
    ensures
        r == has_substring(haystack@, needle@),
{
    haystack.contains(needle)
}

/// A device name matches a query when the query occurs in it, ignoring case.
pub open spec fn name_matches(name: Seq<char>, query: Seq<char>) -> bool {
    has_substring(lowercase(name), lowercase(query))
}

/// Index of the first of `names` in which `query` occurs as a contiguous run
/// of characters.  Device lookup calls it on lowercased names and query.
pub fn first_name_match(names: &[String], query: &str) -> (r: Option<usize>)
    ensures
        match r {
            Some(i) => i < names@.len() && has_substring(names@[i as int]@, query@) && forall|
                j: int,
            |
                0 <= j < i ==> !has_substring(#[trigger] names@[j]@, query@),
            None => forall|j: int|
                0 <= j < names@.len() ==> !has_substring(#[trigger] names@[j]@, query@),
        },
{
    let mut i: usize = 0;
    while i < names.len()
        invariant
            i <= names@.len(),
            forall|j: int| 0 <= j < i ==> !has_substring(#[trigger] names@[j]@, query@),
        decreases names@.len() - i,
    {
        if str_contains(names[i].as_str(), query) {
            return Some(i);
        }
        i = i + 1;
    }
    None
}

/// Index of the first device whose name contains `query`, ignoring case.
pub fn find_device_by_name(list: &[DeviceInfo], query: &str) -> (r: Option<usize>)
    ensures
        match r {
            Some(i) => i < list@.len() && name_matches(list@[i as int].name@, query@) && forall|
                j: int,
            |
                0 <= j < i ==> !name_matches(#[trigger] list@[j].name@, query@),
            None => forall|j: int|
                0 <= j < list@.len() ==> !name_matches(#[trigger] list@[j].name@, query@),
        },
{
    let query_lower = to_lowercase(query);
    let mut names: Vec<String> = Vec::new();
    let mut i: usize = 0;
    while i < list.len()
        invariant
            i <= list@.len(),
            names@.len() == i,
            forall|j: int| 0 <= j < i ==> (#[trigger] names@[j])@ == lowercase(list@[j].name@),
        decreases list@.len() - i,
    {
        names.push(to_lowercase(list[i].name.as_str()));
        i = i + 1;
    }
    let r = first_name_match(names.as_slice(), query_lower.as_str());
    proof {
        assert forall|j: int| 0 <= j < list@.len() implies (#[trigger] names@[j])@ == lowercase(
            list@[j].name@,
        ) by {}
        if let Some(k) = r {
            assert(names@[k as int]@ == lowercase(list@[k as int].name@));
            assert forall|j: int| 0 <= j < k implies !name_matches(
                #[trigger] list@[j].name@,
                query@,
            ) by {
                assert(names@[j]@ == lowercase(list@[j].name@));
            }
        } else {
            assert forall|j: int| 0 <= j < list@.len() implies !name_matches(
                #[trigger] list@[j].name@,
                query@,
            ) by {
                assert(names@[j]@ == lowercase(list@[j].name@));
            }
        }
    }
    r
}

/// Where the device of one stream direction comes from.
#[derive(Clone, Copy, Debug, PartialEq, Eq, Structural)]
pub enum DeviceSource {
    /// The listed device at this index: the first whose name matches the
    /// command-line query.
    Listed(usize),
    /// A command-line query that matches no listed device: an error.
    NoMatch,
    /// Ask the host for the device with the saved identity; when it knows
    /// none, fall back to the system default.
    SavedId,
    /// The system default device.
    SystemDefault,
}

/// Order in which a stream's device is resolved: a command-line name decides
/// alone (its first case-insensitive match, or an error when none matches);
/// without one, a saved device identity is tried; without that, the system
/// default is used.
pub fn device_source(list: &[DeviceInfo], cli_name: Option<&str>, saved_id: Option<&str>) -> (r:
    DeviceSource)
    ensures
        match cli_name {
            Some(q) => match r {
                DeviceSource::Listed(i) => i < list@.len() && name_matches(
                    list@[i as int].name@,
                    q@,
                ) && forall|j: int| 0 <= j < i ==> !name_matches(#[trigger] list@[j].name@, q@),
                DeviceSource::NoMatch => forall|j: int|
                    0 <= j < list@.len() ==> !name_matches(#[trigger] list@[j].name@, q@),
                _ => false,
            },
            None => r == (if saved_id.is_some() {
                DeviceSource::SavedId
            } else {
                DeviceSource::SystemDefault
            }),
        },
{
    match cli_name {
        Some(q) => match find_device_by_name(list, q) {
            Some(i) => DeviceSource::Listed(i),
            None => DeviceSource::NoMatch,
        },
        None => if saved_id.is_some() {
            DeviceSource::SavedId
        } else {
            DeviceSource::SystemDefault
        },
    }
}

/// Index of the first device whose identity string is `id`.
pub fn find_device_by_id(list: &[DeviceInfo], id: &String) -> (r: Option<usize>)
    ensures
        match r {
            Some(i) => i < list@.len() && list@[i as int].id_string@ == id@ && forall|j: int|
                0 <= j < i ==> (#[trigger] list@[j]).id_string@ != id@,
            None => forall|j: int| 0 <= j < list@.len() ==> (#[trigger] list@[j]).id_string@ != id@,
        },
{
    let mut i: usize = 0;
    while i < list.len()
        invariant
            i <= list@.len(),
            forall|j: int| 0 <= j < i ==> (#[trigger] list@[j]).id_string@ != id@,
        decreases list@.len() - i,
    {
        if list[i].id_string == *id {
            return Some(i);
        }
        i = i + 1;
    }
    None
}

/// Sample rate and buffer size to start streams with, given the saved
/// choices and what is known of the two resolved devices: the rate is picked
/// among their common rates (none when either device is unknown), the buffer
/// size among the sizes both accept (the saved size is kept as it is when
/// either device is unknown).
pub open spec fn negotiated(
    config_rate: Option<u32>,
    config_buf: Option<u32>,
    input: Option<DeviceInfo>,
    output: Option<DeviceInfo>,
) -> (u32, Option<u32>) {
    match (input, output) {
        (Some(i), Some(o)) => (
            chosen_sample_rate(
                config_rate,
                common_rates(i.supported_sample_rates@, o.supported_sample_rates@),
            ),
            chosen_buffer_size(config_buf, available_sizes(i.buffer_size_range, o.buffer_size_range)),
        ),
        _ => (chosen_sample_rate(config_rate, Seq::empty()), config_buf),
    }
}

/// Negotiate the start-up sample rate and buffer size from the saved
/// configuration and the two resolved devices' capabilities.
pub fn negotiate_stream_config(
    config_rate: Option<u32>,
    config_buf: Option<u32>,
    input: Option<&DeviceInfo>,
    output: Option<&DeviceInfo>,
) -> (r: (u32, Option<u32>))
    ensures
        r == negotiated(
            config_rate,
            config_buf,
            match input {
                Some(d) => Some(*d),
                None => None,
            },
            match output {
                Some(d) => Some(*d),
                None => None,
            },
        ),
{
    match (input, output) {
        (Some(i), Some(o)) => {
            let common = compute_common_sample_rates(i, o);
            let rate = pick_sample_rate(config_rate, common.as_slice());
            let available = compute_available_buffer_sizes(i, o);
            let buf = pick_buffer_size(config_buf, available.as_slice());
            (rate, buf)
        },
        _ => {
            let empty: Vec<u32> = Vec::new();
            assert(empty@ =~= Seq::<u32>::empty());
            (pick_sample_rate(config_rate, empty.as_slice()), config_buf)
        },
    }
}


/// The first element kept by a filter is the first element of the sequence
/// that the predicate holds of.
proof fn lemma_filter_first(v: Seq<u32>, pred: spec_fn(u32) -> bool)
    requires
        v.filter(pred).len() > 0,
    ensures
        exists|k: int|
            0 <= k < v.len() && v[k] == v.filter(pred)[0] && pred(v[k]) && forall|j: int|
                0 <= j < k ==> !pred(#[trigger] v[j]),
    decreases v.len(),
{
    let p = v.drop_last();
    let x = v.last();
    assert(v =~= p.push(x));
    p.lemma_filter_push(x, pred);
    p.filter_lemma(pred);
    if p.filter(pred).len() > 0 {
        lemma_filter_first(p, pred);
        let k = choose|k: int|
            0 <= k < p.len() && p[k] == p.filter(pred)[0] && pred(p[k]) && forall|j: int|
                0 <= j < k ==> !pred(#[trigger] p[j]);
        assert(v[k] == p[k]);
        assert forall|j: int| 0 <= j < k implies !pred(#[trigger] v[j]) by {
            assert(v[j] == p[j]);
        }
    } else {
        assert forall|j: int| 0 <= j < p.len() implies !pred(#[trigger] v[j]) by {
            assert(v[j] == p[j]);
            if pred(p[j]) {
                assert(p.filter(pred).contains(p[j]));
            }
        }
        assert(pred(x));
        assert(v[v.len() - 1] == x);
    }
}

/// Negotiation for a pair of known devices.  The start-up rate is one both
/// devices support whenever they share one: the saved rate when both support
/// it, else the first of the input device's rates that the output device
/// supports; with no shared rate it is 48000.  The start-up buffer size is
/// the saved size when it is a power-of-two size within every range the
/// devices report (and some range is reported), and "Default" otherwise.
pub proof fn lemma_negotiated_pair(
    config_rate: Option<u32>,
    config_buf: Option<u32>,
    i: DeviceInfo,
    o: DeviceInfo,
)
    ensures
        ({
            let (rate, buf) = negotiated(config_rate, config_buf, Some(i), Some(o));
            let ins = i.supported_sample_rates@;
            let outs = o.supported_sample_rates@;
            let shared = exists|r: u32| #[trigger] ins.contains(r) && outs.contains(r);
            let saved_shared = config_rate is Some && ins.contains(config_rate->0) && outs.contains(
                config_rate->0,
            );
            &&& shared ==> ins.contains(rate) && outs.contains(rate)
            &&& saved_shared ==> rate == config_rate->0
            &&& (shared && !saved_shared) ==> exists|k: int|
                0 <= k < ins.len() && ins[k] == rate && forall|j: int|
                    0 <= j < k ==> !outs.contains(#[trigger] ins[j])
            &&& !shared ==> rate == FALLBACK_SAMPLE_RATE
            &&& buf is Some ==> config_buf == buf && pow2_buffer_sizes().contains(buf->0)
                && within_range(i.buffer_size_range, buf->0) && within_range(
                o.buffer_size_range,
                buf->0,
            )
            &&& (config_buf is Some && pow2_buffer_sizes().contains(config_buf->0) && within_range(
                i.buffer_size_range,
                config_buf->0,
            ) && within_range(o.buffer_size_range, config_buf->0) && (i.buffer_size_range is Some
                || o.buffer_size_range is Some)) ==> buf == config_buf
            &&& config_buf is None ==> buf is None
        }),
{
    let ins = i.supported_sample_rates@;
    let outs = o.supported_sample_rates@;
    let pred = |r: u32| outs.contains(r);
    let common = common_rates(ins, outs);
    assert(common == ins.filter(pred));
    ins.filter_lemma(pred);
    assert forall|r: u32| #[trigger] common.contains(r) <==> ins.contains(r) && outs.contains(r) by {
        if common.contains(r) {
            ins.lemma_filter_contains_rev(pred, r);
            let k = choose|k: int| 0 <= k < common.len() && common[k] == r;
            assert(pred(common[k]));
        }
        if ins.contains(r) && outs.contains(r) {
            let k = choose|k: int| 0 <= k < ins.len() && ins[k] == r;
            assert(pred(ins[k]));
        }
    }
    let shared = exists|r: u32| #[trigger] ins.contains(r) && outs.contains(r);
    if shared {
        let r = choose|r: u32| #[trigger] ins.contains(r) && outs.contains(r);
        assert(common.contains(r));
        assert(common.len() > 0);
        assert(common.contains(common[0]));
        lemma_filter_first(ins, pred);
    } else {
        if common.len() > 0 {
            assert(common.contains(common[0]));
        }
    }
    let avail = available_sizes(i.buffer_size_range, o.buffer_size_range);
    lemma_available_sizes_fit_both(i.buffer_size_range, o.buffer_size_range);
    if let Some(bs) = config_buf {
        if avail.contains(Some(bs)) {
            let k = choose|k: int| 0 <= k < avail.len() && avail[k] == Some(bs);
            assert(k != 0);
            assert(avail[k] is Some);
        }
    }
}


/// A device supports exactly the standard rates that some F32 or I16 config
/// range covers, listed ascending.
pub proof fn lemma_supported_rates_exact(configs: Seq<ConfigRange>)
    ensures
        forall|r: u32| #[trigger]
            supported_rates(configs).contains(r) <==> standard_rates().contains(r) && exists|i: int|
                0 <= i < configs.len() && (configs[i].format == SampleFormat::F32
                    || configs[i].format == SampleFormat::I16) && configs[i].min_sample_rate <= r
                    <= #[trigger] configs[i].max_sample_rate,
        forall|k: int, l: int|
            0 <= k < l < supported_rates(configs).len() ==> supported_rates(configs)[k]
                < supported_rates(configs)[l],
{
    let pred = |rate: u32| rate_covered(configs, rate);
    let st = standard_rates();
    assert forall|i: int, j: int| 0 <= i < j < st.len() implies st[i] < st[j] by {}
    lemma_filter_ascending(st, pred);
    st.filter_lemma(pred);
    assert forall|r: u32| #[trigger] supported_rates(configs).contains(r) <==> st.contains(r)
        && rate_covered(configs, r) by {
        if supported_rates(configs).contains(r) {
            st.lemma_filter_contains_rev(pred, r);
            let k = choose|k: int|
                0 <= k < supported_rates(configs).len() && supported_rates(configs)[k] == r;
            assert(pred(supported_rates(configs)[k]));
        }
        if st.contains(r) && rate_covered(configs, r) {
            let k = choose|k: int| 0 <= k < st.len() && st[k] == r;
            assert(pred(st[k]));
        }
    }
}

} // verus!
