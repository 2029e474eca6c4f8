//! The program guide: the time window asked for, and the merge of the
//! per-channel schedule replies into the catalog, where a failed reply leaves
//! its channel's program list empty.

use vstd::prelude::*;
use crate::model::{channels_view, programs_view, Channel, ChannelView, Program, ProgramView};

verus! {

pub const DAY_MS: u64 = 86400000;

/// One schedule entry as the portal sends it.
pub struct Bill {
    pub name: String,
    pub start_time: i64,
    pub end_time: i64,
}

/// The program an entry becomes: the name serves as title and description.
pub open spec fn program_of(b: Bill) -> ProgramView {
    ProgramView { start: b.start_time, stop: b.end_time, title: b.name@, desc: b.name@ }
}

pub open spec fn programs_of(bills: Seq<Bill>) -> Seq<ProgramView> {
    bills.map_values(|b: Bill| program_of(b))
}

/// The guide window around `now`: from two days before to five days after,
/// in epoch milliseconds.
pub fn guide_window(now_ms: u64) -> (r: (u64, u64))
    requires
        now_ms >= 2 * DAY_MS,
        now_ms + 5 * DAY_MS <= u64::MAX,
    ensures
        r.0 == now_ms - 2 * DAY_MS,
        r.1 == now_ms + 5 * DAY_MS,
{
    (now_ms - 2 * DAY_MS, now_ms + 5 * DAY_MS)
}

/// The programs of a schedule reply, in reply order.
pub fn programs_from_bills(bills: &Vec<Bill>) -> (r: Vec<Program>)
    ensures
        programs_view(r@) == programs_of(bills@),
{
    let mut out: Vec<Program> = Vec::new();
    let mut i: usize = 0;
    while i < bills.len()
        invariant
            i <= bills@.len(),
            out@.len() == i,
            programs_view(out@) == programs_of(bills@.take(i as int)),
        decreases bills.len() - i,
    {
        let b = &bills[i];
        let p = Program {
            start: b.start_time,
            stop: b.end_time,
            title: b.name.clone(),
            desc: b.name.clone(),
        };
        assert(p@ == program_of(bills@[i as int]));
        let ghost before = out@;
        out.push(p);
        assert forall|k: int| 0 <= k < i + 1 implies programs_view(out@)[k] == programs_of(
            bills@.take(i + 1),
        )[k] by {
            if k < i {
                assert(programs_view(before)[k] == programs_of(bills@.take(i as int))[k]);
                assert(out@[k] == before[k]);
            }
        }
        i = i + 1;
        assert(programs_view(out@) =~= programs_of(bills@.take(i as int)));
    }
    assert(bills@.take(i as int) =~= bills@);
    out
}

/// A channel with a schedule reply applied: its programs followed by those of
/// the reply when there is one, unchanged when its request failed.
pub open spec fn with_guide(c: ChannelView, reply: Option<Seq<Bill>>) -> ChannelView {
    match reply {
        Some(bills) => ChannelView { epg: c.epg + programs_of(bills), ..c },
        None => c,
    }
}

pub open spec fn replies_view(v: Seq<Option<Vec<Bill>>>) -> Seq<Option<Seq<Bill>>> {
    v.map_values(
        |o: Option<Vec<Bill>>|
            match o {
                Some(b) => Some(b@),
                None => None,
            },
    )
}

/// Every channel, in catalog order, with its schedule reply applied; a
/// channel whose request failed keeps its (empty) program list, and no
/// failure fails the whole.
pub fn merge_guide(channels: Vec<Channel>, replies: Vec<Option<Vec<Bill>>>) -> (r: Vec<Channel>)
    requires
        replies@.len() == channels@.len(),
    ensures
        r@.len() == channels@.len(),
        forall|i: int|
            0 <= i < r@.len() ==> #[trigger] channels_view(r@)[i] == with_guide(
                channels_view(channels@)[i],
                replies_view(replies@)[i],
            ),
{
    let mut out: Vec<Channel> = Vec::new();
    let mut chans = channels;
    let mut reps = replies;
    let ghost c0 = channels_view(chans@);
    let ghost r0 = replies_view(reps@);
    assert forall|k: int| 0 <= k < c0.len() implies #[trigger] chans@[k]@ == c0[0 + k] by {}
    let n = chans.len();
    let mut i: usize = 0;
    while i < n
        invariant
            n == c0.len(),
            r0.len() == n,
            i <= n,
            chans@.len() == n - i,
            reps@.len() == n - i,
            out@.len() == i,
            forall|k: int| 0 <= k < n - i ==> #[trigger] chans@[k]@ == c0[i + k],
            forall|k: int| 0 <= k < n - i ==> #[trigger] replies_view(reps@)[k] == r0[i + k],
            forall|k: int|
                0 <= k < i ==> #[trigger] channels_view(out@)[k] == with_guide(c0[k], r0[k]),
        decreases n - i,
    {
        let ghost cv = chans@[0]@;
        let ghost rv = replies_view(reps@)[0];
        let ghost cs = chans@;
        let ghost rs = reps@;
        let mut c = chans.remove(0);
        let rep = reps.remove(0);
        assert forall|k: int| 0 <= k < n - (i + 1) implies #[trigger] chans@[k]@ == c0[i + 1 + k] by {
            assert(chans@[k] == cs[k + 1]);
        }
        assert forall|k: int| 0 <= k < n - (i + 1) implies #[trigger] replies_view(reps@)[k] == r0[i + 1 + k] by {
            assert(reps@[k] == rs[k + 1]);
            assert(replies_view(rs)[k + 1] == r0[i + k + 1]);
        }
        assert(c@ == c0[i as int]);
        assert(rv == r0[i as int]);
        assert(replies_view(rs)[0] == (match rs[0] {
            Some(b) => Some(b@),
            None => None::<Seq<Bill>>,
        }));
        match rep {
            Some(bills) => {
                let ghost e0 = c@.epg;
                let mut more = programs_from_bills(&bills);
                let ghost m = programs_view(more@);
                let ghost ce = c.epg@;
                c.epg.append(&mut more);
                assert(programs_view(c.epg@) =~= e0 + m);
                assert(c@ =~= with_guide(c0[i as int], r0[i as int]));
            },
            None => {},
        }
        assert(c@ == with_guide(c0[i as int], r0[i as int]));
        let ghost before = out@;
        out.push(c);
        assert forall|k: int| 0 <= k < i + 1 implies #[trigger] channels_view(out@)[k] == with_guide(c0[k], r0[k]) by {
            if k < i {
                assert(out@[k] == before[k]);
                assert(channels_view(before)[k] == with_guide(c0[k], r0[k]));
            }
        }
        i = i + 1;
    }
    out
}

} // verus!
