//! State rules of the dashboards: view tabs, the bounded event log and the
//! weighted poll order of the vector HUD.
use vstd::prelude::*;

verus! {

/// The views of the terminal UI.
#[derive(Debug, Clone, Copy, PartialEq, Eq, Structural)]
pub enum Tab {
    Live,
    Dtc,
    Log,
    Help,
}

pub open spec fn tab_after(t: Tab) -> Tab {
    match t {
        Tab::Live => Tab::Dtc,
        Tab::Dtc => Tab::Log,
        Tab::Log => Tab::Help,
        Tab::Help => Tab::Live,
    }
}

pub open spec fn tab_before(t: Tab) -> Tab {
    match t {
        Tab::Live => Tab::Help,
        Tab::Dtc => Tab::Live,
        Tab::Log => Tab::Dtc,
        Tab::Help => Tab::Log,
    }
}

impl Tab {
    /// The next view (Tab key).
    pub fn next(self) -> (r: Tab)
        ensures
            r == tab_after(self),
    {
        match self {
            Tab::Live => Tab::Dtc,
            Tab::Dtc => Tab::Log,
            Tab::Log => Tab::Help,
            Tab::Help => Tab::Live,
        }
    }

    /// The previous view (Shift-Tab).
    pub fn prev(self) -> (r: Tab)
        ensures
            r == tab_before(self),
    {
        match self {
            Tab::Live => Tab::Help,
            Tab::Dtc => Tab::Live,
            Tab::Log => Tab::Dtc,
            Tab::Help => Tab::Log,
        }
    }
}

/// Going back undoes going forward, and four steps forward return to the start.
pub proof fn lemma_tab_cycle(t: Tab)
    ensures
        tab_before(tab_after(t)) == t,
        tab_after(tab_before(t)) == t,
        tab_after(tab_after(tab_after(tab_after(t)))) == t,
{
}

/// The log keeps at most 500 lines: past that, only the newest 400 remain.
pub open spec fn trimmed_log<T>(log: Seq<T>) -> Seq<T> {
    if log.len() > 500 {
        log.subrange(log.len() - 400, log.len() as int)
    } else {
        log
    }
}

pub fn trim_log(log: &mut Vec<String>)
    ensures
        final(log)@ == trimmed_log(old(log)@),
{
    if log.len() > 500 {
        let drain: usize = log.len() - 400;
        let mut kept: Vec<String> = Vec::new();
        let mut i: usize = drain;
        let ghost orig = log@;
        while i < log.len()
            invariant
                log@ == orig,
                drain <= i <= log@.len(),
                kept@ == orig.subrange(drain as int, i as int),
            decreases log@.len() - i,
        {
            let ghost before = kept@;
            kept.push(log[i].clone());
            i += 1;
            assert(kept@ =~= orig.subrange(drain as int, i as int));
        }
        *log = kept;
    }
}

/// The vector HUD's poll order: each priority PID once, and RPM, speed,
/// throttle and load three times in a row; a fixed order when there are none.
pub open spec fn weighted_order(p: Seq<u8>) -> Seq<u8>
    decreases p.len(),
{
    if p.len() == 0 {
        Seq::empty()
    } else {
        let x = p.last();
        if x == 0x0C || x == 0x0D || x == 0x11 || x == 0x04 {
            weighted_order(p.drop_last()) + seq![x, x, x]
        } else {
            weighted_order(p.drop_last()).push(x)
        }
    }
}

pub fn weighted_poll_order(priority: &Vec<u8>) -> (r: Vec<u8>)
    ensures
        priority@.len() > 0 ==> r@ == weighted_order(priority@),
        priority@.len() == 0 ==> r@ == seq![0x0Cu8, 0x0D, 0x04, 0x11, 0x05, 0x0C],
{
    let mut order: Vec<u8> = Vec::new();
    let mut i: usize = 0;
    while i < priority.len()
        invariant
            i <= priority@.len(),
            order@ == weighted_order(priority@.subrange(0, i as int)),
        decreases priority@.len() - i,
    {
        let p: u8 = priority[i];
        proof {
            let pre = priority@.subrange(0, i + 1);
            assert(pre.drop_last() =~= priority@.subrange(0, i as int));
        }
        let ghost before = order@;
        order.push(p);
        if p == 0x0C || p == 0x0D || p == 0x11 || p == 0x04 {
            order.push(p);
            order.push(p);
            assert(order@ =~= before + seq![p, p, p]);
        }
        i += 1;
    }
    assert(priority@.subrange(0, priority@.len() as int) =~= priority@);
    if order.len() == 0 {
        let d: Vec<u8> = vec![0x0C, 0x0D, 0x04, 0x11, 0x05, 0x0C];
        assert(d@ =~= seq![0x0Cu8, 0x0D, 0x04, 0x11, 0x05, 0x0C]);
        return d;
    }
    order
}

} // verus!
