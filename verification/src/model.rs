use vstd::prelude::*;

verus! {

/// One measurement outcome: a synthetic value and the unix second at which
/// it was produced.
#[derive(Clone, Copy, PartialEq, Eq, Structural, Debug)]
pub struct MonitorResult {
    pub value: i32,
    pub processed_at: i64,
}

/// One named monitor record. `result` stays `None` until the first refresh.
#[derive(Debug, PartialEq)]
pub struct Monitor {
    pub name: String,
    pub monitor_id: Option<u32>,
    pub script: Option<String>,
    pub result: Option<MonitorResult>,
    pub code: String,
    pub monitor_type: Option<String>,
}

/// The mathematical shape of one record: its strings as character sequences.
pub struct MonitorView {
    pub name: Seq<char>,
    pub monitor_id: Option<u32>,
    pub script: Option<Seq<char>>,
    pub result: Option<MonitorResult>,
    pub code: Seq<char>,
    pub monitor_type: Option<Seq<char>>,
}

pub open spec fn opt_str_view(o: Option<String>) -> Option<Seq<char>> {
    match o {
        Some(s) => Some(s@),
        None => None,
    }
}

impl View for Monitor {
    type V = MonitorView;

    open spec fn view(&self) -> MonitorView {
        MonitorView {
            name: self.name@,
            monitor_id: self.monitor_id,
            script: opt_str_view(self.script),
            result: self.result,
            code: self.code@,
            monitor_type: opt_str_view(self.monitor_type),
        }
    }
}

/// The shared entity set: an ordered sequence of records, unique by position.
#[derive(Debug, PartialEq)]
pub struct MonitorData {
    pub monitors: Vec<Monitor>,
}

/// The record views of a sequence of records.
pub open spec fn monitors_view(s: Seq<Monitor>) -> Seq<MonitorView> {
    Seq::new(s.len(), |i: int| s[i]@)
}

impl View for MonitorData {
    type V = Seq<MonitorView>;

    open spec fn view(&self) -> Seq<MonitorView> {
        monitors_view(self.monitors@)
    }
}

/// The record `b` with its result overwritten by value `v` stamped at `t`;
/// every other field is kept.
pub open spec fn refreshed_record(b: MonitorView, v: i32, t: i64) -> MonitorView {
    MonitorView {
        name: b.name,
        monitor_id: b.monitor_id,
        script: b.script,
        result: Some(MonitorResult { value: v, processed_at: t }),
        code: b.code,
        monitor_type: b.monitor_type,
    }
}

/// One full refresh cycle: `after` is `before` with every record's result
/// overwritten, position by position, by `values` stamped at `now`.
pub open spec fn refresh_of(
    before: Seq<MonitorView>,
    after: Seq<MonitorView>,
    values: Seq<i32>,
    now: i64,
) -> bool {
    &&& after.len() == before.len()
    &&& values.len() == before.len()
    &&& forall|i: int|
        0 <= i < before.len() ==> #[trigger] after[i] == refreshed_record(
            before[i],
            values[i],
            now,
        )
}

pub assume_specification<T>[ rand::random::<T> ]() -> (r: T)
    where
        rand::distributions::Standard: rand::distributions::Distribution<T>,
;

impl MonitorData {
    /// Overwrites every record's result, position by position, with the given
    /// values stamped at `now`. The pure heart of one refresh cycle.
    pub fn set_results(&mut self, values: &Vec<i32>, now: i64)
        requires
            old(self).monitors@.len() == values@.len(),
        ensures
            refresh_of(old(self)@, final(self)@, values@, now),
    {
        let n = self.monitors.len();
        let mut out: Vec<Monitor> = Vec::new();
        let mut i: usize = 0;
        while i < n
            invariant
                self.monitors@ == old(self).monitors@,
                n == self.monitors@.len(),
                values@.len() == n,
                i <= n,
                out@.len() == i,
                forall|j: int|
                    0 <= j < i ==> #[trigger] out@[j]@ == refreshed_record(
                        old(self)@[j],
                        values@[j],
                        now,
                    ),
            decreases n - i,
        {
            let rec = &self.monitors[i];
            let fresh = Monitor {
                name: rec.name.clone(),
                monitor_id: rec.monitor_id,
                script: match &rec.script {
                    Some(s) => Some(s.clone()),
                    None => None,
                },
                result: Some(MonitorResult { value: values[i], processed_at: now }),
                code: rec.code.clone(),
                monitor_type: match &rec.monitor_type {
                    Some(s) => Some(s.clone()),
                    None => None,
                },
            };
            out.push(fresh);
            i += 1;
        }
        self.monitors = out;
    }

    /// Initializes every record's result with a freshly drawn value and the
    /// current wall-clock second; the set keeps its length and every other
    /// field, and all records share the one timestamp of the call.
    pub fn with_random_results(self) -> (r: Self)
        ensures
            r@.len() == self@.len(),
            exists|values: Seq<i32>, now: i64| refresh_of(self@, r@, values, now),
    {
        let ghost orig = self@;
        let now = crate::clock::unix_now_seconds();
        let n = self.monitors.len();
        let mut values: Vec<i32> = Vec::new();
        while values.len() < n
            invariant
                values@.len() <= n,
            decreases n - values@.len(),
        {
            values.push(rand::random::<i32>());
        }
        let mut data = self;
        data.set_results(&values, now);
        proof {
            assert(refresh_of(orig, data@, values@, now));
        }
        data
    }
}

/// After one refresh cycle every record carries a result, and all of them
/// carry the one timestamp of that cycle.
pub proof fn lemma_refresh_sets_every_result(
    before: Seq<MonitorView>,
    after: Seq<MonitorView>,
    values: Seq<i32>,
    now: i64,
)
    requires
        refresh_of(before, after, values, now),
    ensures
        after.len() == before.len(),
        forall|i: int|
            0 <= i < after.len() ==> (#[trigger] after[i].result) == Some(
                MonitorResult { value: values[i], processed_at: now },
            ),
{
}

/// Monotonicity of timestamps: provided the cycle's clock reading is at least
/// every timestamp already recorded, one full refresh cycle leaves every
/// record's `processed_at` no smaller than it was before the cycle.
pub proof fn lemma_refresh_monotonic(
    before: Seq<MonitorView>,
    after: Seq<MonitorView>,
    values: Seq<i32>,
    now: i64,
)
    requires
        refresh_of(before, after, values, now),
        forall|i: int|
            0 <= i < before.len() && (#[trigger] before[i].result) is Some ==> now
                >= before[i].result.unwrap().processed_at,
    ensures
        forall|i: int|
            0 <= i < after.len() && (#[trigger] before[i].result) is Some ==> after[
                i
            ].result.unwrap().processed_at >= before[i].result.unwrap().processed_at,
{
}


/// The computation of one refresh cycle on the shared set, in place: every
/// record's result is overwritten with a freshly drawn value, all stamped
/// with the one wall-clock second of the cycle; length and every other field
/// are kept.
pub fn refresh_in_place(data: &mut MonitorData)
    ensures
        final(data)@.len() == old(data)@.len(),
        exists|values: Seq<i32>, now: i64| refresh_of(old(data)@, final(data)@, values, now),
{
    let now = crate::clock::unix_now_seconds();
    let n = data.monitors.len();
    let mut values: Vec<i32> = Vec::new();
    while values.len() < n
        invariant
            values@.len() <= n,
        decreases n - values@.len(),
    {
        values.push(rand::random::<i32>());
    }
    data.set_results(&values, now);
    proof {
        assert(refresh_of(old(data)@, data@, values@, now));
    }
}

} // verus!
