//! The store itself: three independent collections (sessions, todos,
//! reminders) and their mutation and query operations.

use vstd::prelude::*;

verus! {

/// One logged block of study time for a given day, with an optional label.
pub struct StudySession {
    /// Calendar day in `YYYY-MM-DD` form.
    pub date: String,
    /// Whole minutes studied; never stored as zero.
    pub minutes: u64,
    /// Optional label; sessions with and without a label never merge.
    pub description: Option<String>,
}

/// A single actionable text item with a completion flag.
pub struct Todo {
    /// Unique among the todos of one store.
    pub id: u64,
    pub text: String,
    pub completed: bool,
    /// Timestamp string set when the todo was created.
    pub created_at: String,
}

/// Lead-time marker for a reminder: how many days before the due date an
/// alert should conceptually fire.
#[derive(Clone, Copy, Debug, PartialEq, Eq, Structural)]
pub enum NotificationPeriod {
    OneDay,
    ThreeDays,
    OneWeek,
    /// A custom number of days before the due date.
    Custom(u32),
}

/// A titled item with a due date, lead-time markers and a completion flag.
pub struct Reminder {
    /// Unique among the reminders of one store (independent of todo ids).
    pub id: u64,
    pub title: String,
    pub description: Option<String>,
    /// Calendar day in `YYYY-MM-DD` form.
    pub due_date: String,
    pub created_at: String,
    /// Not deduplicated and not ordered by the store.
    pub notification_periods: Vec<NotificationPeriod>,
    pub is_completed: bool,
}

/// Mathematical image of a session: the field values as sequences.
pub ghost struct SessionModel {
    pub date: Seq<char>,
    pub minutes: u64,
    pub description: Option<Seq<char>>,
}

/// Mathematical image of a todo.
pub ghost struct TodoModel {
    pub id: u64,
    pub text: Seq<char>,
    pub completed: bool,
    pub created_at: Seq<char>,
}

/// Mathematical image of a reminder.
pub ghost struct ReminderModel {
    pub id: u64,
    pub title: Seq<char>,
    pub description: Option<Seq<char>>,
    pub due_date: Seq<char>,
    pub created_at: Seq<char>,
    pub notification_periods: Seq<NotificationPeriod>,
    pub is_completed: bool,
}

/// Mathematical image of a whole store.
pub ghost struct StoreModel {
    pub sessions: Seq<SessionModel>,
    pub todos: Seq<TodoModel>,
    pub reminders: Seq<ReminderModel>,
}

/// View of an optional string as an optional character sequence.
pub open spec fn opt_view(o: Option<String>) -> Option<Seq<char>> {
    match o {
        Some(s) => Some(s@),
        None => None,
    }
}

impl View for StudySession {
    type V = SessionModel;

    open spec fn view(&self) -> SessionModel {
        SessionModel {
            date: self.date@,
            minutes: self.minutes,
            description: opt_view(self.description),
        }
    }
}

impl View for Todo {
    type V = TodoModel;

    open spec fn view(&self) -> TodoModel {
        TodoModel {
            id: self.id,
            text: self.text@,
            completed: self.completed,
            created_at: self.created_at@,
        }
    }
}

impl View for Reminder {
    type V = ReminderModel;

    open spec fn view(&self) -> ReminderModel {
        ReminderModel {
            id: self.id,
            title: self.title@,
            description: opt_view(self.description),
            due_date: self.due_date@,
            created_at: self.created_at@,
            notification_periods: self.notification_periods@,
            is_completed: self.is_completed,
        }
    }
}

/// The aggregate root: owns the three collections exclusively.
pub struct StudyData {
    pub sessions: Vec<StudySession>,
    pub todos: Vec<Todo>,
    pub reminders: Vec<Reminder>,
}

impl View for StudyData {
    type V = StoreModel;

    open spec fn view(&self) -> StoreModel {
        StoreModel {
            sessions: self.sessions@.map_values(|s: StudySession| s@),
            todos: self.todos@.map_values(|t: Todo| t@),
            reminders: self.reminders@.map_values(|r: Reminder| r@),
        }
    }
}

impl StudyData {
    /// A store with three empty collections.
    pub fn new() -> (d: StudyData)
        ensures
            d@.sessions =~= Seq::<SessionModel>::empty(),
            d@.todos =~= Seq::<TodoModel>::empty(),
            d@.reminders =~= Seq::<ReminderModel>::empty(),
            d@.wf(),
    {
        let d = StudyData { sessions: Vec::new(), todos: Vec::new(), reminders: Vec::new() };
        proof {
            assert(d@.sessions =~= Seq::<SessionModel>::empty());
            assert(d@.todos =~= Seq::<TodoModel>::empty());
            assert(d@.reminders =~= Seq::<ReminderModel>::empty());
        }
        d
    }
}

/// Character-for-character string comparison.
pub fn str_eq(a: &str, b: &str) -> (r: bool)
    ensures
        r == (a@ == b@),
{
    let na = a.unicode_len();
    let nb = b.unicode_len();
    if na != nb {
        return false;
    }
    let mut i: usize = 0;
    while i < na
        invariant
            na == a@.len(),
            nb == b@.len(),
            na == nb,
            i <= na,
            forall|k: int| 0 <= k < i ==> a@[k] == b@[k],
        decreases na - i,
    {
        if a.get_char(i) != b.get_char(i) {
            return false;
        }
        i += 1;
    }
    proof {
        assert(a@ =~= b@);
    }
    true
}

/// Equality of two optional strings at the level of their characters.
fn opt_str_eq(a: &Option<String>, b: &Option<String>) -> (r: bool)
    ensures
        r == (opt_view(*a) == opt_view(*b)),
{
    match (a, b) {
        (Some(x), Some(y)) => str_eq(x.as_str(), y.as_str()),
        (None, None) => true,
        _ => false,
    }
}

impl StudyData {
    /// Log `minutes` of study for `date` under the optional label
    /// `description`. A non-positive contribution is silently a no-op.
    /// Otherwise the minutes accumulate onto the first existing session
    /// with exactly this date and this description (a missing description
    /// only matches a missing description), and a new session is appended
    /// when no such session exists.
    #[verifier::loop_isolation(false)]
    pub fn add_session(&mut self, date: String, minutes: i64, description: Option<String>)
        requires
            minutes > 0 ==> match find_session(old(self)@.sessions, date@, opt_view(description)) {
                Some(i) => old(self)@.sessions[i].minutes + minutes <= u64::MAX,
                None => true,
            },
        ensures
            final(self)@.sessions == spec_add_session(
                old(self)@.sessions,
                date@,
                minutes,
                opt_view(description),
            ),
            final(self)@.todos == old(self)@.todos,
            final(self)@.reminders == old(self)@.reminders,
    {
        if minutes <= 0 {
            return ;
        }
        let m64: u64 = minutes as u64;
        let ghost dview = opt_view(description);
        let n = self.sessions.len();
        let mut i: usize = 0;
        while i < n
            invariant
                *self == *old(self),
                n == self.sessions.len(),
                i <= n,
                minutes > 0,
                m64 == minutes as u64,
                dview == opt_view(description),
                forall|k: int| 0 <= k < i ==> !session_matches(self@.sessions[k], date@, dview),
            decreases n - i,
        {
            let same_date = str_eq(self.sessions[i].date.as_str(), date.as_str());
            let same_desc = opt_str_eq(&self.sessions[i].description, &description);
            proof {
                assert(self@.sessions[i as int] == self.sessions@[i as int]@);
            }
            if same_date && same_desc {
                proof {
                    assert(session_matches(self@.sessions[i as int], date@, dview));
                    lemma_find_session_at(self@.sessions, date@, dview, i as int);
                    assert(find_session(old(self)@.sessions, date@, dview) == Some(i as int));
                    assert(old(self)@.sessions[i as int].minutes + minutes <= u64::MAX);
                }
                let cur: u64 = self.sessions[i].minutes;
                self.sessions[i].minutes = cur + m64;
                proof {
                    let ghost oldss = old(self)@.sessions;
                    assert(forall|k: int|
                        0 <= k < oldss.len() && k != i ==> self@.sessions[k] == oldss[k]);
                    assert(self@.sessions[i as int] == merged_session(oldss[i as int], minutes));
                    assert(self@.sessions =~= oldss.update(
                        i as int,
                        merged_session(oldss[i as int], minutes),
                    ));
                    assert(self@.todos =~= old(self)@.todos);
                    assert(self@.reminders =~= old(self)@.reminders);
                }
                return ;
            }
            i += 1;
        }
        proof {
            lemma_find_session_none(self@.sessions, date@, dview);
        }
        let ghost oldss = old(self)@.sessions;
        self.sessions.push(StudySession { date, minutes: m64, description });
        proof {
            assert(self@.sessions =~= oldss.push(
                SessionModel { date: date@, minutes: m64, description: dview },
            ));
            assert(self@.todos =~= old(self)@.todos);
            assert(self@.reminders =~= old(self)@.reminders);
        }
    }

    /// Total minutes over all sessions, unconditionally.
    pub fn get_total_minutes(&self) -> (r: u128)
        ensures
            r == sum_minutes(self@.sessions),
    {
        let n = self.sessions.len();
        let mut total: u128 = 0;
        let mut i: usize = 0;
        while i < n
            invariant
                n == self.sessions.len(),
                i <= n,
                total == sum_minutes(self@.sessions.take(i as int)),
                total <= (i as int) * (u64::MAX as int),
            decreases n - i,
        {
            let m = self.sessions[i].minutes;
            proof {
                let ghost ss = self@.sessions;
                assert(ss.take(i as int + 1).drop_last() =~= ss.take(i as int));
                assert(ss.take(i as int + 1).last() == ss[i as int]);
                assert(ss[i as int].minutes == self.sessions@[i as int]@.minutes);
                assert(total + m <= (i as int + 1) * (u64::MAX as int)) by (nonlinear_arith)
                    requires
                        total <= (i as int) * (u64::MAX as int),
                        m <= u64::MAX as int,
                ;
                assert((i as int + 1) * (u64::MAX as int) < u128::MAX as int) by (nonlinear_arith)
                    requires
                        0 <= i as int + 1 <= 0x1_0000_0000_0000_0000,
                ;
            }
            total = total + m as u128;
            i += 1;
        }
        proof {
            assert(self@.sessions.take(n as int) =~= self@.sessions);
        }
        total
    }

    /// Minutes logged for one given calendar day.
    pub fn minutes_on_date(&self, date: &str) -> (r: u128)
        ensures
            r == date_minutes(self@.sessions, date@),
    {
        let n = self.sessions.len();
        let mut total: u128 = 0;
        let mut i: usize = 0;
        while i < n
            invariant
                n == self.sessions.len(),
                i <= n,
                total == date_minutes(self@.sessions.take(i as int), date@),
                total <= (i as int) * (u64::MAX as int),
            decreases n - i,
        {
            let same_date = str_eq(self.sessions[i].date.as_str(), date);
            proof {
                let ghost ss = self@.sessions;
                assert(ss.take(i as int + 1).drop_last() =~= ss.take(i as int));
                assert(ss.take(i as int + 1).last() == ss[i as int]);
                assert(ss[i as int] == self.sessions@[i as int]@);
                assert(total + u64::MAX as int <= (i as int + 1) * (u64::MAX as int))
                    by (nonlinear_arith)
                    requires
                        total <= (i as int) * (u64::MAX as int),
                ;
                assert((i as int + 1) * (u64::MAX as int) < u128::MAX as int) by (nonlinear_arith)
                    requires
                        0 <= i as int + 1 <= 0x1_0000_0000_0000_0000,
                ;
            }
            if same_date {
                let m = self.sessions[i].minutes;
                total = total + m as u128;
            }
            i += 1;
        }
        proof {
            assert(self@.sessions.take(n as int) =~= self@.sessions);
        }
        total
    }

    /// Minutes logged for the current local calendar day. Which day that
    /// is depends on the clock; for a clock-independent contract see
    /// [`Self::minutes_on_date`].
    pub fn get_today_minutes(&self) -> (r: u128)
        ensures
            exists|d: Seq<char>| r == #[trigger] date_minutes(self@.sessions, d),
    {
        let today = crate::clock::today_string();
        let r = self.minutes_on_date(today.as_str());
        proof {
            assert(r == date_minutes(self@.sessions, today@));
        }
        r
    }

    /// Minutes logged in the window of `days` calendar days ending at the
    /// day numbered `today_day`: a session counts exactly when its date
    /// parses as a calendar day whose difference from `today_day` is
    /// strictly below `days`. Sessions with an unparseable date are
    /// excluded (they still count toward the total).
    pub fn minutes_in_window(&self, today_day: i64, days: i64) -> (r: u128)
        ensures
            r == window_minutes(self@.sessions, today_day as int, days as int),
    {
        let n = self.sessions.len();
        let mut total: u128 = 0;
        let mut i: usize = 0;
        while i < n
            invariant
                n == self.sessions.len(),
                i <= n,
                total == window_minutes(self@.sessions.take(i as int), today_day as int, days as int),
                total <= (i as int) * (u64::MAX as int),
            decreases n - i,
        {
            let parsed = crate::clock::parse_date_day_number(self.sessions[i].date.as_str());
            let counts: bool = match parsed {
                Some(d) => (today_day as i128) - (d as i128) < (days as i128),
                None => false,
            };
            proof {
                let ghost ss = self@.sessions;
                assert(ss.take(i as int + 1).drop_last() =~= ss.take(i as int));
                assert(ss.take(i as int + 1).last() == ss[i as int]);
                assert(ss[i as int] == self.sessions@[i as int]@);
                assert(counts == in_window(ss[i as int], today_day as int, days as int));
                assert(total + u64::MAX as int <= (i as int + 1) * (u64::MAX as int))
                    by (nonlinear_arith)
                    requires
                        total <= (i as int) * (u64::MAX as int),
                ;
                assert((i as int + 1) * (u64::MAX as int) < u128::MAX as int) by (nonlinear_arith)
                    requires
                        0 <= i as int + 1 <= 0x1_0000_0000_0000_0000,
                ;
            }
            if counts {
                let m = self.sessions[i].minutes;
                total = total + m as u128;
            }
            i += 1;
        }
        proof {
            assert(self@.sessions.take(n as int) =~= self@.sessions);
        }
        total
    }

    /// Minutes logged in the last `days` calendar days, counted back from
    /// the current local day. The reference day depends on the clock; for
    /// a clock-independent contract see [`Self::minutes_in_window`].
    pub fn get_last_n_days_minutes(&self, days: i64) -> (r: u128)
        ensures
            exists|t: int| r == #[trigger] window_minutes(self@.sessions, t, days as int),
    {
        let today = crate::clock::today_day_number();
        let r = self.minutes_in_window(today, days);
        proof {
            assert(r == window_minutes(self@.sessions, today as int, days as int));
        }
        r
    }
}

/// Ids of a todo sequence, in order.
pub open spec fn todo_ids(ts: Seq<TodoModel>) -> Seq<u64> {
    ts.map_values(|t: TodoModel| t.id)
}

/// Ids of a reminder sequence, in order.
pub open spec fn reminder_ids(rs: Seq<ReminderModel>) -> Seq<u64> {
    rs.map_values(|r: ReminderModel| r.id)
}

/// Index of the first record carrying `id`, if any.
pub open spec fn find_id(ids: Seq<u64>, id: u64) -> Option<int>
    decreases ids.len(),
{
    if ids.len() == 0 {
        None
    } else if ids[0] == id {
        Some(0)
    } else {
        match find_id(ids.drop_first(), id) {
            Some(i) => Some(i + 1),
            None => None,
        }
    }
}

pub proof fn lemma_find_id_at(ids: Seq<u64>, id: u64, i: int)
    requires
        0 <= i < ids.len(),
        ids[i] == id,
        forall|k: int| 0 <= k < i ==> ids[k] != id,
    ensures
        find_id(ids, id) == Some(i),
    decreases ids.len(),
{
    if i == 0 {
    } else {
        assert(forall|k: int| 0 <= k < i - 1 ==> ids.drop_first()[k] == ids[k + 1]);
        lemma_find_id_at(ids.drop_first(), id, i - 1);
    }
}

pub proof fn lemma_find_id_none(ids: Seq<u64>, id: u64)
    requires
        forall|k: int| 0 <= k < ids.len() ==> ids[k] != id,
    ensures
        find_id(ids, id) is None,
    decreases ids.len(),
{
    if ids.len() == 0 {
    } else {
        assert(forall|k: int| 0 <= k < ids.len() - 1 ==> ids.drop_first()[k] == ids[k + 1]);
        lemma_find_id_none(ids.drop_first(), id);
    }
}

/// No id occurs twice.
pub open spec fn unique_ids(ids: Seq<u64>) -> bool {
    forall|i: int, j: int| 0 <= i < j < ids.len() ==> ids[i] != ids[j]
}

/// Largest id in the sequence, `0` when it is empty.
pub open spec fn max_id(ids: Seq<u64>) -> u64
    decreases ids.len(),
{
    if ids.len() == 0 {
        0
    } else {
        let m = max_id(ids.drop_last());
        if ids.last() > m {
            ids.last()
        } else {
            m
        }
    }
}

/// The id the next inserted record gets: one past the current maximum,
/// so `1` on an empty collection, recomputed fresh from current data.
pub open spec fn next_id(ids: Seq<u64>) -> int {
    max_id(ids) + 1
}

impl StoreModel {
    /// Store invariant: todo ids are unique among todos and reminder ids
    /// are unique among reminders (the two namespaces are independent).
    pub open spec fn wf(self) -> bool {
        unique_ids(todo_ids(self.todos)) && unique_ids(reminder_ids(self.reminders))
    }
}

/// Whether a stored session belongs to the identity bucket given by a date
/// and an optional description: both must match exactly, and a session
/// without a description matches only the absent description.
pub open spec fn session_matches(s: SessionModel, date: Seq<char>, desc: Option<Seq<char>>) -> bool {
    s.date == date && s.description == desc
}

/// Index of the first session in the bucket, if any.
pub open spec fn find_session(
    ss: Seq<SessionModel>,
    date: Seq<char>,
    desc: Option<Seq<char>>,
) -> Option<int>
    decreases ss.len(),
{
    if ss.len() == 0 {
        None
    } else if session_matches(ss[0], date, desc) {
        Some(0)
    } else {
        match find_session(ss.drop_first(), date, desc) {
            Some(i) => Some(i + 1),
            None => None,
        }
    }
}

pub proof fn lemma_find_session_at(
    ss: Seq<SessionModel>,
    date: Seq<char>,
    desc: Option<Seq<char>>,
    i: int,
)
    requires
        0 <= i < ss.len(),
        session_matches(ss[i], date, desc),
        forall|k: int| 0 <= k < i ==> !session_matches(ss[k], date, desc),
    ensures
        find_session(ss, date, desc) == Some(i),
    decreases ss.len(),
{
    if i == 0 {
    } else {
        assert(!session_matches(ss[0], date, desc));
        assert(forall|k: int|
            0 <= k < i - 1 ==> ss.drop_first()[k] == ss[k + 1] && !session_matches(
                ss[k + 1],
                date,
                desc,
            ));
        lemma_find_session_at(ss.drop_first(), date, desc, i - 1);
    }
}

pub proof fn lemma_find_session_none(ss: Seq<SessionModel>, date: Seq<char>, desc: Option<Seq<char>>)
    requires
        forall|k: int| 0 <= k < ss.len() ==> !session_matches(ss[k], date, desc),
    ensures
        find_session(ss, date, desc) is None,
    decreases ss.len(),
{
    if ss.len() == 0 {
    } else {
        assert(forall|k: int|
            0 <= k < ss.len() - 1 ==> ss.drop_first()[k] == ss[k + 1] && !session_matches(
                ss[k + 1],
                date,
                desc,
            ));
        lemma_find_session_none(ss.drop_first(), date, desc);
    }
}

/// The session that results from adding `m` minutes to an existing one.
pub open spec fn merged_session(s: SessionModel, m: i64) -> SessionModel {
    SessionModel { minutes: (s.minutes + m) as u64, ..s }
}

/// What `add_session` does to the session sequence: a non-positive
/// contribution changes nothing; otherwise the first session of the
/// `(date, description)` bucket accumulates `m`, or a new session is
/// appended when the bucket is empty.
pub open spec fn spec_add_session(
    ss: Seq<SessionModel>,
    date: Seq<char>,
    m: i64,
    desc: Option<Seq<char>>,
) -> Seq<SessionModel> {
    if m <= 0 {
        ss
    } else {
        match find_session(ss, date, desc) {
            Some(i) => ss.update(i, merged_session(ss[i], m)),
            None => ss.push(SessionModel { date: date, minutes: m as u64, description: desc }),
        }
    }
}

/// Sum of the minutes of all sessions.
pub open spec fn sum_minutes(ss: Seq<SessionModel>) -> int
    decreases ss.len(),
{
    if ss.len() == 0 {
        0
    } else {
        sum_minutes(ss.drop_last()) + ss.last().minutes
    }
}

/// Sum of the minutes of the sessions logged for one calendar day.
pub open spec fn date_minutes(ss: Seq<SessionModel>, date: Seq<char>) -> int
    decreases ss.len(),
{
    if ss.len() == 0 {
        0
    } else {
        date_minutes(ss.drop_last(), date) + if ss.last().date == date {
            ss.last().minutes as int
        } else {
            0
        }
    }
}

/// Whether a session falls in the window of the `days` calendar days
/// ending at the day numbered `today`: its date must parse as a calendar
/// day, and the day difference must be strictly below `days`. Sessions
/// whose date does not parse are excluded.
pub open spec fn in_window(s: SessionModel, today: int, days: int) -> bool {
    match crate::clock::date_day_number(s.date) {
        Some(d) => today - d < days,
        None => false,
    }
}

/// Sum of the minutes of the sessions inside the window.
pub open spec fn window_minutes(ss: Seq<SessionModel>, today: int, days: int) -> int
    decreases ss.len(),
{
    if ss.len() == 0 {
        0
    } else {
        window_minutes(ss.drop_last(), today, days) + if in_window(ss.last(), today, days) {
            ss.last().minutes as int
        } else {
            0
        }
    }
}

/// Every id is at most the maximum.
pub proof fn lemma_max_id_bound(ids: Seq<u64>, i: int)
    requires
        0 <= i < ids.len(),
    ensures
        ids[i] <= max_id(ids),
    decreases ids.len(),
{
    if i == ids.len() - 1 {
    } else {
        lemma_max_id_bound(ids.drop_last(), i);
        assert(ids.drop_last()[i] == ids[i]);
    }
}

/// Filtering keeps an id out that was out before.
proof fn lemma_todo_filter_id_absent(ts: Seq<TodoModel>, pred: spec_fn(TodoModel) -> bool, x: u64)
    requires
        forall|k: int| 0 <= k < ts.len() ==> ts[k].id != x,
    ensures
        forall|k: int| 0 <= k < ts.filter(pred).len() ==> ts.filter(pred)[k].id != x,
    decreases ts.len(),
{
    reveal(Seq::filter);
    if ts.len() > 0 {
        let dl = ts.drop_last();
        lemma_todo_filter_id_absent(dl, pred, x);
        let f = ts.filter(pred);
        let fd = dl.filter(pred);
        assert forall|k: int| 0 <= k < f.len() implies f[k].id != x by {
            if pred(ts.last()) {
                assert(f == fd.push(ts.last()));
                if k < f.len() - 1 {
                    assert(f[k] == fd[k]);
                } else {
                    assert(f[k] == ts.last());
                    assert(ts[ts.len() - 1].id != x);
                }
            } else {
                assert(f == fd);
            }
        }
    }
}

/// A filtered todo sequence keeps ids unique.
pub proof fn lemma_todo_filter_unique(ts: Seq<TodoModel>, pred: spec_fn(TodoModel) -> bool)
    requires
        unique_ids(todo_ids(ts)),
    ensures
        unique_ids(todo_ids(ts.filter(pred))),
    decreases ts.len(),
{
    reveal(Seq::filter);
    if ts.len() > 0 {
        let dl = ts.drop_last();
        assert(todo_ids(dl) =~= todo_ids(ts).drop_last());
        assert(forall|k: int| 0 <= k < dl.len() ==> todo_ids(dl)[k] == dl[k].id);
        lemma_todo_filter_unique(dl, pred);
        if pred(ts.last()) {
            assert(ts.filter(pred) == dl.filter(pred).push(ts.last()));
            assert forall|k: int| 0 <= k < dl.len() implies dl[k].id != ts.last().id by {
                assert(todo_ids(ts)[k] == ts[k].id);
                assert(todo_ids(ts)[ts.len() - 1] == ts.last().id);
            }
            lemma_todo_filter_id_absent(dl, pred, ts.last().id);
            assert(todo_ids(ts.filter(pred)) =~= todo_ids(dl.filter(pred)).push(ts.last().id));
        } else {
            assert(ts.filter(pred) == dl.filter(pred));
        }
    }
}

/// Filtering keeps an id out that was out before.
proof fn lemma_reminder_filter_id_absent(
    rs: Seq<ReminderModel>,
    pred: spec_fn(ReminderModel) -> bool,
    x: u64,
)
    requires
        forall|k: int| 0 <= k < rs.len() ==> rs[k].id != x,
    ensures
        forall|k: int| 0 <= k < rs.filter(pred).len() ==> rs.filter(pred)[k].id != x,
    decreases rs.len(),
{
    reveal(Seq::filter);
    if rs.len() > 0 {
        let dl = rs.drop_last();
        lemma_reminder_filter_id_absent(dl, pred, x);
        let f = rs.filter(pred);
        let fd = dl.filter(pred);
        assert forall|k: int| 0 <= k < f.len() implies f[k].id != x by {
            if pred(rs.last()) {
                assert(f == fd.push(rs.last()));
                if k < f.len() - 1 {
                    assert(f[k] == fd[k]);
                } else {
                    assert(f[k] == rs.last());
                    assert(rs[rs.len() - 1].id != x);
                }
            } else {
                assert(f == fd);
            }
        }
    }
}

/// A filtered reminder sequence keeps ids unique.
pub proof fn lemma_reminder_filter_unique(
    rs: Seq<ReminderModel>,
    pred: spec_fn(ReminderModel) -> bool,
)
    requires
        unique_ids(reminder_ids(rs)),
    ensures
        unique_ids(reminder_ids(rs.filter(pred))),
    decreases rs.len(),
{
    reveal(Seq::filter);
    if rs.len() > 0 {
        let dl = rs.drop_last();
        assert(reminder_ids(dl) =~= reminder_ids(rs).drop_last());
        assert(forall|k: int| 0 <= k < dl.len() ==> reminder_ids(dl)[k] == dl[k].id);
        lemma_reminder_filter_unique(dl, pred);
        if pred(rs.last()) {
            assert(rs.filter(pred) == dl.filter(pred).push(rs.last()));
            assert forall|k: int| 0 <= k < dl.len() implies dl[k].id != rs.last().id by {
                assert(reminder_ids(rs)[k] == rs[k].id);
                assert(reminder_ids(rs)[rs.len() - 1] == rs.last().id);
            }
            lemma_reminder_filter_id_absent(dl, pred, rs.last().id);
            assert(reminder_ids(rs.filter(pred)) =~= reminder_ids(dl.filter(pred)).push(
                rs.last().id,
            ));
        } else {
            assert(rs.filter(pred) == dl.filter(pred));
        }
    }
}

fn clone_string(s: &String) -> (r: String)
    ensures
        r == *s,
{
    s.clone()
}

fn clone_opt_string(o: &Option<String>) -> (r: Option<String>)
    ensures
        r == *o,
{
    match o {
        Some(s) => Some(clone_string(s)),
        None => None,
    }
}

fn clone_todo(t: &Todo) -> (r: Todo)
    ensures
        r == *t,
{
    Todo {
        id: t.id,
        text: clone_string(&t.text),
        completed: t.completed,
        created_at: clone_string(&t.created_at),
    }
}

fn clone_periods(v: &Vec<NotificationPeriod>) -> (r: Vec<NotificationPeriod>)
    ensures
        r@ == v@,
{
    let mut out: Vec<NotificationPeriod> = Vec::new();
    let n = v.len();
    let mut i: usize = 0;
    while i < n
        invariant
            n == v@.len(),
            i <= n,
            out@ =~= v@.take(i as int),
        decreases n - i,
    {
        out.push(v[i]);
        proof {
            assert(out@ =~= v@.take(i as int + 1));
        }
        i += 1;
    }
    proof {
        assert(v@.take(n as int) =~= v@);
    }
    out
}

fn clone_reminder(r: &Reminder) -> (out: Reminder)
    ensures
        out@ == r@,
{
    Reminder {
        id: r.id,
        title: clone_string(&r.title),
        description: clone_opt_string(&r.description),
        due_date: clone_string(&r.due_date),
        created_at: clone_string(&r.created_at),
        notification_periods: clone_periods(&r.notification_periods),
        is_completed: r.is_completed,
    }
}

impl StudyData {
    /// The id the next added todo will get: one past the largest current
    /// todo id, so `1` when there are no todos, recomputed fresh from the
    /// current data each time.
    #[verifier::loop_isolation(false)]
    pub fn get_next_todo_id(&self) -> (r: u64)
        requires
            max_id(todo_ids(self@.todos)) < u64::MAX,
        ensures
            r as int == next_id(todo_ids(self@.todos)),
    {
        let ghost ids = todo_ids(self@.todos);
        let n = self.todos.len();
        let mut m: u64 = 0;
        let mut i: usize = 0;
        while i < n
            invariant
                i <= n,
                m == max_id(ids.take(i as int)),
            decreases n - i,
        {
            let tid = self.todos[i].id;
            proof {
                assert(ids.take(i as int + 1).drop_last() =~= ids.take(i as int));
                assert(ids.take(i as int + 1).last() == ids[i as int]);
                assert(ids[i as int] == self.todos@[i as int]@.id);
            }
            if tid > m {
                m = tid;
            }
            i += 1;
        }
        proof {
            assert(ids.take(n as int) =~= ids);
        }
        m + 1
    }

    /// Append a new todo: fresh id, the given text, not completed, and a
    /// creation timestamp taken from the clock.
    #[verifier::loop_isolation(false)]
    pub fn add_todo(&mut self, text: String)
        requires
            max_id(todo_ids(old(self)@.todos)) < u64::MAX,
        ensures
            final(self)@.todos.len() == old(self)@.todos.len() + 1,
            final(self)@.todos.take(old(self)@.todos.len() as int) == old(self)@.todos,
            final(self)@.todos.last().id as int == next_id(todo_ids(old(self)@.todos)),
            final(self)@.todos.last().text == text@,
            final(self)@.todos.last().completed == false,
            final(self)@.sessions == old(self)@.sessions,
            final(self)@.reminders == old(self)@.reminders,
            old(self)@.wf() ==> final(self)@.wf(),
    {
        let id = self.get_next_todo_id();
        let created_at = crate::clock::now_timestamp();
        self.todos.push(Todo { id, text, completed: false, created_at });
        proof {
            let ghost oldts = old(self)@.todos;
            assert(self@.todos =~= oldts.push(self.todos@.last()@));
            assert(self@.todos.take(oldts.len() as int) =~= oldts);
            assert(self@.sessions =~= old(self)@.sessions);
            assert(self@.reminders =~= old(self)@.reminders);
            if old(self)@.wf() {
                assert(todo_ids(self@.todos) =~= todo_ids(oldts).push(id));
                assert forall|k: int| 0 <= k < oldts.len() implies todo_ids(oldts)[k] != id by {
                    lemma_max_id_bound(todo_ids(oldts), k);
                }
                assert(reminder_ids(self@.reminders) =~= reminder_ids(old(self)@.reminders));
            }
        }
    }

    /// Flip the completion flag of the first todo carrying `id` and return
    /// the new flag; without a match, change nothing and return `false`
    /// (the same value as "now incomplete").
    #[verifier::loop_isolation(false)]
    pub fn toggle_todo(&mut self, id: u64) -> (r: bool)
        ensures
            match find_id(todo_ids(old(self)@.todos), id) {
                Some(i) => final(self)@.todos == old(self)@.todos.update(
                    i,
                    TodoModel { completed: !old(self)@.todos[i].completed, ..old(self)@.todos[i] },
                ) && r == !old(self)@.todos[i].completed,
                None => final(self)@.todos == old(self)@.todos && r == false,
            },
            final(self)@.sessions == old(self)@.sessions,
            final(self)@.reminders == old(self)@.reminders,
            old(self)@.wf() ==> final(self)@.wf(),
    {
        let ghost ids = todo_ids(old(self)@.todos);
        let n = self.todos.len();
        let mut i: usize = 0;
        while i < n
            invariant
                *self == *old(self),
                i <= n,
                forall|k: int| 0 <= k < i ==> ids[k] != id,
            decreases n - i,
        {
            proof {
                assert(ids[i as int] == self.todos@[i as int]@.id);
            }
            if self.todos[i].id == id {
                proof {
                    lemma_find_id_at(ids, id, i as int);
                }
                let cur = self.todos[i].completed;
                self.todos[i].completed = !cur;
                proof {
                    let ghost oldts = old(self)@.todos;
                    assert(self@.todos =~= oldts.update(
                        i as int,
                        TodoModel { completed: !oldts[i as int].completed, ..oldts[i as int] },
                    ));
                    assert(self@.sessions =~= old(self)@.sessions);
                    assert(self@.reminders =~= old(self)@.reminders);
                    if old(self)@.wf() {
                        assert(todo_ids(self@.todos) =~= ids);
                        assert(reminder_ids(self@.reminders) =~= reminder_ids(
                            old(self)@.reminders,
                        ));
                    }
                }
                return !cur;
            }
            i += 1;
        }
        proof {
            lemma_find_id_none(ids, id);
        }
        false
    }

    /// Replace the text of the first todo carrying `id`; without a match,
    /// change nothing.
    #[verifier::loop_isolation(false)]
    pub fn update_todo_text(&mut self, id: u64, text: String)
        ensures
            match find_id(todo_ids(old(self)@.todos), id) {
                Some(i) => final(self)@.todos == old(self)@.todos.update(
                    i,
                    TodoModel { text: text@, ..old(self)@.todos[i] },
                ),
                None => final(self)@.todos == old(self)@.todos,
            },
            final(self)@.sessions == old(self)@.sessions,
            final(self)@.reminders == old(self)@.reminders,
            old(self)@.wf() ==> final(self)@.wf(),
    {
        let ghost ids = todo_ids(old(self)@.todos);
        let n = self.todos.len();
        let mut i: usize = 0;
        while i < n
            invariant
                *self == *old(self),
                i <= n,
                forall|k: int| 0 <= k < i ==> ids[k] != id,
            decreases n - i,
        {
            proof {
                assert(ids[i as int] == self.todos@[i as int]@.id);
            }
            if self.todos[i].id == id {
                proof {
                    lemma_find_id_at(ids, id, i as int);
                }
                self.todos[i].text = text;
                proof {
                    let ghost oldts = old(self)@.todos;
                    assert(self@.todos =~= oldts.update(
                        i as int,
                        TodoModel { text: text@, ..oldts[i as int] },
                    ));
                    assert(self@.sessions =~= old(self)@.sessions);
                    assert(self@.reminders =~= old(self)@.reminders);
                    if old(self)@.wf() {
                        assert(todo_ids(self@.todos) =~= ids);
                        assert(reminder_ids(self@.reminders) =~= reminder_ids(
                            old(self)@.reminders,
                        ));
                    }
                }
                return ;
            }
            i += 1;
        }
        proof {
            lemma_find_id_none(ids, id);
        }
    }

    /// Remove every todo carrying `id` (a no-op when none does).
    #[verifier::loop_isolation(false)]
    pub fn delete_todo(&mut self, id: u64)
        ensures
            final(self)@.todos == old(self)@.todos.filter(|t: TodoModel| t.id != id),
            final(self)@.sessions == old(self)@.sessions,
            final(self)@.reminders == old(self)@.reminders,
            old(self)@.wf() ==> final(self)@.wf(),
    {
        let ghost pred = |t: TodoModel| t.id != id;
        let n = self.todos.len();
        let mut kept: Vec<Todo> = Vec::new();
        let mut i: usize = 0;
        proof {
            reveal(Seq::filter);
            assert(kept@.map_values(|t: Todo| t@) =~= old(self)@.todos.take(0).filter(pred));
        }
        while i < n
            invariant
                *self == *old(self),
                i <= n,
                kept@.map_values(|t: Todo| t@) == old(self)@.todos.take(i as int).filter(pred),
            decreases n - i,
        {
            proof {
                reveal(Seq::filter);
                let ghost oldts = old(self)@.todos;
                assert(oldts.take(i as int + 1).drop_last() =~= oldts.take(i as int));
                assert(oldts.take(i as int + 1).last() == oldts[i as int]);
                assert(oldts[i as int] == self.todos@[i as int]@);
            }
            if self.todos[i].id != id {
                let c = clone_todo(&self.todos[i]);
                kept.push(c);
                proof {
                    reveal(Seq::filter);
                    assert(kept@.map_values(|t: Todo| t@) =~= old(self)@.todos.take(
                        i as int + 1,
                    ).filter(pred));
                }
            } else {
                proof {
                    reveal(Seq::filter);
                    assert(kept@.map_values(|t: Todo| t@) =~= old(self)@.todos.take(
                        i as int + 1,
                    ).filter(pred));
                }
            }
            i += 1;
        }
        proof {
            assert(old(self)@.todos.take(n as int) =~= old(self)@.todos);
        }
        self.todos = kept;
        proof {
            assert(self@.sessions =~= old(self)@.sessions);
            assert(self@.reminders =~= old(self)@.reminders);
            if old(self)@.wf() {
                lemma_todo_filter_unique(old(self)@.todos, pred);
            }
        }
    }

    /// Remove all todos.
    pub fn clear_todos(&mut self)
        ensures
            final(self)@.todos == Seq::<TodoModel>::empty(),
            final(self)@.sessions == old(self)@.sessions,
            final(self)@.reminders == old(self)@.reminders,
            old(self)@.wf() ==> final(self)@.wf(),
    {
        self.todos.clear();
        proof {
            assert(self@.todos =~= Seq::<TodoModel>::empty());
            assert(self@.sessions =~= old(self)@.sessions);
            assert(self@.reminders =~= old(self)@.reminders);
            if old(self)@.wf() {
                assert(reminder_ids(self@.reminders) =~= reminder_ids(old(self)@.reminders));
            }
        }
    }

    /// Remove exactly the completed todos.
    #[verifier::loop_isolation(false)]
    pub fn clear_completed_todos(&mut self)
        ensures
            final(self)@.todos == old(self)@.todos.filter(|t: TodoModel| !t.completed),
            final(self)@.sessions == old(self)@.sessions,
            final(self)@.reminders == old(self)@.reminders,
            old(self)@.wf() ==> final(self)@.wf(),
    {
        let ghost pred = |t: TodoModel| !t.completed;
        let n = self.todos.len();
        let mut kept: Vec<Todo> = Vec::new();
        let mut i: usize = 0;
        proof {
            reveal(Seq::filter);
            assert(kept@.map_values(|t: Todo| t@) =~= old(self)@.todos.take(0).filter(pred));
        }
        while i < n
            invariant
                *self == *old(self),
                i <= n,
                kept@.map_values(|t: Todo| t@) == old(self)@.todos.take(i as int).filter(pred),
            decreases n - i,
        {
            proof {
                reveal(Seq::filter);
                let ghost oldts = old(self)@.todos;
                assert(oldts.take(i as int + 1).drop_last() =~= oldts.take(i as int));
                assert(oldts.take(i as int + 1).last() == oldts[i as int]);
                assert(oldts[i as int] == self.todos@[i as int]@);
            }
            if !self.todos[i].completed {
                let c = clone_todo(&self.todos[i]);
                kept.push(c);
                proof {
                    reveal(Seq::filter);
                    assert(kept@.map_values(|t: Todo| t@) =~= old(self)@.todos.take(
                        i as int + 1,
                    ).filter(pred));
                }
            } else {
                proof {
                    reveal(Seq::filter);
                    assert(kept@.map_values(|t: Todo| t@) =~= old(self)@.todos.take(
                        i as int + 1,
                    ).filter(pred));
                }
            }
            i += 1;
        }
        proof {
            assert(old(self)@.todos.take(n as int) =~= old(self)@.todos);
        }
        self.todos = kept;
        proof {
            assert(self@.sessions =~= old(self)@.sessions);
            assert(self@.reminders =~= old(self)@.reminders);
            if old(self)@.wf() {
                lemma_todo_filter_unique(old(self)@.todos, pred);
            }
        }
    }
}

impl StudyData {
    /// The id the next added reminder will get: one past the largest
    /// current reminder id (independent of todo ids), so `1` when there
    /// are no reminders, recomputed fresh from the current data each time.
    #[verifier::loop_isolation(false)]
    pub fn get_next_reminder_id(&self) -> (r: u64)
        requires
            max_id(reminder_ids(self@.reminders)) < u64::MAX,
        ensures
            r as int == next_id(reminder_ids(self@.reminders)),
    {
        let ghost ids = reminder_ids(self@.reminders);
        let n = self.reminders.len();
        let mut m: u64 = 0;
        let mut i: usize = 0;
        while i < n
            invariant
                i <= n,
                m == max_id(ids.take(i as int)),
            decreases n - i,
        {
            let rid = self.reminders[i].id;
            proof {
                assert(ids.take(i as int + 1).drop_last() =~= ids.take(i as int));
                assert(ids.take(i as int + 1).last() == ids[i as int]);
                assert(ids[i as int] == self.reminders@[i as int]@.id);
            }
            if rid > m {
                m = rid;
            }
            i += 1;
        }
        proof {
            assert(ids.take(n as int) =~= ids);
        }
        m + 1
    }

    /// Append a new reminder: fresh id, the given title, description, due
    /// date and lead-time markers, not completed, and a creation timestamp
    /// taken from the clock.
    #[verifier::loop_isolation(false)]
    pub fn add_reminder(
        &mut self,
        title: String,
        description: Option<String>,
        due_date: String,
        notification_periods: Vec<NotificationPeriod>,
    )
        requires
            max_id(reminder_ids(old(self)@.reminders)) < u64::MAX,
        ensures
            final(self)@.reminders.len() == old(self)@.reminders.len() + 1,
            final(self)@.reminders.take(old(self)@.reminders.len() as int) == old(
                self,
            )@.reminders,
            final(self)@.reminders.last().id as int == next_id(reminder_ids(old(self)@.reminders)),
            final(self)@.reminders.last().title == title@,
            final(self)@.reminders.last().description == opt_view(description),
            final(self)@.reminders.last().due_date == due_date@,
            final(self)@.reminders.last().notification_periods == notification_periods@,
            final(self)@.reminders.last().is_completed == false,
            final(self)@.sessions == old(self)@.sessions,
            final(self)@.todos == old(self)@.todos,
            old(self)@.wf() ==> final(self)@.wf(),
    {
        let id = self.get_next_reminder_id();
        let created_at = crate::clock::now_timestamp();
        self.reminders.push(
            Reminder {
                id,
                title,
                description,
                due_date,
                created_at,
                notification_periods,
                is_completed: false,
            },
        );
        proof {
            let ghost oldrs = old(self)@.reminders;
            assert(self@.reminders =~= oldrs.push(self.reminders@.last()@));
            assert(self@.reminders.take(oldrs.len() as int) =~= oldrs);
            assert(self@.sessions =~= old(self)@.sessions);
            assert(self@.todos =~= old(self)@.todos);
            if old(self)@.wf() {
                assert(reminder_ids(self@.reminders) =~= reminder_ids(oldrs).push(id));
                assert forall|k: int| 0 <= k < oldrs.len() implies reminder_ids(oldrs)[k]
                    != id by {
                    lemma_max_id_bound(reminder_ids(oldrs), k);
                }
                assert(todo_ids(self@.todos) =~= todo_ids(old(self)@.todos));
            }
        }
    }

    /// Replace title, description, due date and lead-time markers of the
    /// first reminder carrying `id` (its creation timestamp and completion
    /// flag stay); without a match, change nothing.
    #[verifier::loop_isolation(false)]
    pub fn update_reminder(
        &mut self,
        id: u64,
        title: String,
        description: Option<String>,
        due_date: String,
        notification_periods: Vec<NotificationPeriod>,
    )
        ensures
            match find_id(reminder_ids(old(self)@.reminders), id) {
                Some(i) => final(self)@.reminders == old(self)@.reminders.update(
                    i,
                    ReminderModel {
                        title: title@,
                        description: opt_view(description),
                        due_date: due_date@,
                        notification_periods: notification_periods@,
                        ..old(self)@.reminders[i]
                    },
                ),
                None => final(self)@.reminders == old(self)@.reminders,
            },
            final(self)@.sessions == old(self)@.sessions,
            final(self)@.todos == old(self)@.todos,
            old(self)@.wf() ==> final(self)@.wf(),
    {
        let ghost ids = reminder_ids(old(self)@.reminders);
        let n = self.reminders.len();
        let mut i: usize = 0;
        while i < n
            invariant
                *self == *old(self),
                i <= n,
                forall|k: int| 0 <= k < i ==> ids[k] != id,
            decreases n - i,
        {
            proof {
                assert(ids[i as int] == self.reminders@[i as int]@.id);
            }
            if self.reminders[i].id == id {
                proof {
                    lemma_find_id_at(ids, id, i as int);
                }
                self.reminders[i].title = title;
                self.reminders[i].description = description;
                self.reminders[i].due_date = due_date;
                self.reminders[i].notification_periods = notification_periods;
                proof {
                    let ghost oldrs = old(self)@.reminders;
                    assert(self@.reminders =~= oldrs.update(
                        i as int,
                        ReminderModel {
                            title: title@,
                            description: opt_view(description),
                            due_date: due_date@,
                            notification_periods: notification_periods@,
                            ..oldrs[i as int]
                        },
                    ));
                    assert(self@.sessions =~= old(self)@.sessions);
                    assert(self@.todos =~= old(self)@.todos);
                    if old(self)@.wf() {
                        assert(reminder_ids(self@.reminders) =~= ids);
                        assert(todo_ids(self@.todos) =~= todo_ids(old(self)@.todos));
                    }
                }
                return ;
            }
            i += 1;
        }
        proof {
            lemma_find_id_none(ids, id);
        }
    }

    /// Flip the completion flag of the first reminder carrying `id` and
    /// return the new flag; without a match, change nothing and return
    /// `false` (the same value as "now incomplete").
    #[verifier::loop_isolation(false)]
    pub fn toggle_reminder(&mut self, id: u64) -> (r: bool)
        ensures
            match find_id(reminder_ids(old(self)@.reminders), id) {
                Some(i) => final(self)@.reminders == old(self)@.reminders.update(
                    i,
                    ReminderModel {
                        is_completed: !old(self)@.reminders[i].is_completed,
                        ..old(self)@.reminders[i]
                    },
                ) && r == !old(self)@.reminders[i].is_completed,
                None => final(self)@.reminders == old(self)@.reminders && r == false,
            },
            final(self)@.sessions == old(self)@.sessions,
            final(self)@.todos == old(self)@.todos,
            old(self)@.wf() ==> final(self)@.wf(),
    {
        let ghost ids = reminder_ids(old(self)@.reminders);
        let n = self.reminders.len();
        let mut i: usize = 0;
        while i < n
            invariant
                *self == *old(self),
                i <= n,
                forall|k: int| 0 <= k < i ==> ids[k] != id,
            decreases n - i,
        {
            proof {
                assert(ids[i as int] == self.reminders@[i as int]@.id);
            }
            if self.reminders[i].id == id {
                proof {
                    lemma_find_id_at(ids, id, i as int);
                }
                let cur = self.reminders[i].is_completed;
                self.reminders[i].is_completed = !cur;
                proof {
                    let ghost oldrs = old(self)@.reminders;
                    assert(self@.reminders =~= oldrs.update(
                        i as int,
                        ReminderModel {
                            is_completed: !oldrs[i as int].is_completed,
                            ..oldrs[i as int]
                        },
                    ));
                    assert(self@.sessions =~= old(self)@.sessions);
                    assert(self@.todos =~= old(self)@.todos);
                    if old(self)@.wf() {
                        assert(reminder_ids(self@.reminders) =~= ids);
                        assert(todo_ids(self@.todos) =~= todo_ids(old(self)@.todos));
                    }
                }
                return !cur;
            }
            i += 1;
        }
        proof {
            lemma_find_id_none(ids, id);
        }
        false
    }

    /// Remove every reminder carrying `id` (a no-op when none does).
    #[verifier::loop_isolation(false)]
    pub fn delete_reminder(&mut self, id: u64)
        ensures
            final(self)@.reminders == old(self)@.reminders.filter(|r: ReminderModel| r.id != id),
            final(self)@.sessions == old(self)@.sessions,
            final(self)@.todos == old(self)@.todos,
            old(self)@.wf() ==> final(self)@.wf(),
    {
        let ghost pred = |r: ReminderModel| r.id != id;
        let n = self.reminders.len();
        let mut kept: Vec<Reminder> = Vec::new();
        let mut i: usize = 0;
        proof {
            reveal(Seq::filter);
            assert(kept@.map_values(|r: Reminder| r@) =~= old(self)@.reminders.take(0).filter(
                pred,
            ));
        }
        while i < n
            invariant
                *self == *old(self),
                i <= n,
                kept@.map_values(|r: Reminder| r@) == old(self)@.reminders.take(i as int).filter(
                    pred,
                ),
            decreases n - i,
        {
            proof {
                reveal(Seq::filter);
                let ghost oldrs = old(self)@.reminders;
                assert(oldrs.take(i as int + 1).drop_last() =~= oldrs.take(i as int));
                assert(oldrs.take(i as int + 1).last() == oldrs[i as int]);
                assert(oldrs[i as int] == self.reminders@[i as int]@);
            }
            if self.reminders[i].id != id {
                let c = clone_reminder(&self.reminders[i]);
                kept.push(c);
                proof {
                    reveal(Seq::filter);
                    assert(kept@.map_values(|r: Reminder| r@) =~= old(self)@.reminders.take(
                        i as int + 1,
                    ).filter(pred));
                }
            } else {
                proof {
                    reveal(Seq::filter);
                    assert(kept@.map_values(|r: Reminder| r@) =~= old(self)@.reminders.take(
                        i as int + 1,
                    ).filter(pred));
                }
            }
            i += 1;
        }
        proof {
            assert(old(self)@.reminders.take(n as int) =~= old(self)@.reminders);
        }
        self.reminders = kept;
        proof {
            assert(self@.sessions =~= old(self)@.sessions);
            assert(self@.todos =~= old(self)@.todos);
            if old(self)@.wf() {
                lemma_reminder_filter_unique(old(self)@.reminders, pred);
            }
        }
    }

    /// Remove all reminders.
    pub fn clear_reminders(&mut self)
        ensures
            final(self)@.reminders == Seq::<ReminderModel>::empty(),
            final(self)@.sessions == old(self)@.sessions,
            final(self)@.todos == old(self)@.todos,
            old(self)@.wf() ==> final(self)@.wf(),
    {
        self.reminders.clear();
        proof {
            assert(self@.reminders =~= Seq::<ReminderModel>::empty());
            assert(self@.sessions =~= old(self)@.sessions);
            assert(self@.todos =~= old(self)@.todos);
            if old(self)@.wf() {
                assert(todo_ids(self@.todos) =~= todo_ids(old(self)@.todos));
            }
        }
    }

    /// Remove exactly the completed reminders.
    #[verifier::loop_isolation(false)]
    pub fn clear_completed_reminders(&mut self)
        ensures
            final(self)@.reminders == old(self)@.reminders.filter(
                |r: ReminderModel| !r.is_completed,
            ),
            final(self)@.sessions == old(self)@.sessions,
            final(self)@.todos == old(self)@.todos,
            old(self)@.wf() ==> final(self)@.wf(),
    {
        let ghost pred = |r: ReminderModel| !r.is_completed;
        let n = self.reminders.len();
        let mut kept: Vec<Reminder> = Vec::new();
        let mut i: usize = 0;
        proof {
            reveal(Seq::filter);
            assert(kept@.map_values(|r: Reminder| r@) =~= old(self)@.reminders.take(0).filter(
                pred,
            ));
        }
        while i < n
            invariant
                *self == *old(self),
                i <= n,
                kept@.map_values(|r: Reminder| r@) == old(self)@.reminders.take(i as int).filter(
                    pred,
                ),
            decreases n - i,
        {
            proof {
                reveal(Seq::filter);
                let ghost oldrs = old(self)@.reminders;
                assert(oldrs.take(i as int + 1).drop_last() =~= oldrs.take(i as int));
                assert(oldrs.take(i as int + 1).last() == oldrs[i as int]);
                assert(oldrs[i as int] == self.reminders@[i as int]@);
            }
            if !self.reminders[i].is_completed {
                let c = clone_reminder(&self.reminders[i]);
                kept.push(c);
                proof {
                    reveal(Seq::filter);
                    assert(kept@.map_values(|r: Reminder| r@) =~= old(self)@.reminders.take(
                        i as int + 1,
                    ).filter(pred));
                }
            } else {
                proof {
                    reveal(Seq::filter);
                    assert(kept@.map_values(|r: Reminder| r@) =~= old(self)@.reminders.take(
                        i as int + 1,
                    ).filter(pred));
                }
            }
            i += 1;
        }
        proof {
            assert(old(self)@.reminders.take(n as int) =~= old(self)@.reminders);
        }
        self.reminders = kept;
        proof {
            assert(self@.sessions =~= old(self)@.sessions);
            assert(self@.todos =~= old(self)@.todos);
            if old(self)@.wf() {
                lemma_reminder_filter_unique(old(self)@.reminders, pred);
            }
        }
    }
}

/// Contribution of one session to the `(date, desc)` bucket total.
pub open spec fn session_contrib(s: SessionModel, date: Seq<char>, desc: Option<Seq<char>>) -> int {
    if session_matches(s, date, desc) {
        s.minutes as int
    } else {
        0
    }
}

/// Total minutes stored in the `(date, desc)` bucket.
pub open spec fn key_minutes(ss: Seq<SessionModel>, date: Seq<char>, desc: Option<Seq<char>>) -> int
    decreases ss.len(),
{
    if ss.len() == 0 {
        0
    } else {
        key_minutes(ss.drop_last(), date, desc) + session_contrib(ss.last(), date, desc)
    }
}

/// Replacing one session changes a bucket total by the difference of the
/// two sessions' contributions.
pub proof fn lemma_key_minutes_update(
    ss: Seq<SessionModel>,
    date: Seq<char>,
    desc: Option<Seq<char>>,
    i: int,
    s: SessionModel,
)
    requires
        0 <= i < ss.len(),
    ensures
        key_minutes(ss.update(i, s), date, desc) == key_minutes(ss, date, desc) - session_contrib(
            ss[i],
            date,
            desc,
        ) + session_contrib(s, date, desc),
    decreases ss.len(),
{
    let up = ss.update(i, s);
    if i == ss.len() - 1 {
        assert(up.drop_last() =~= ss.drop_last());
        assert(up.last() == s);
    } else {
        assert(up.drop_last() =~= ss.drop_last().update(i, s));
        assert(up.last() == ss.last());
        lemma_key_minutes_update(ss.drop_last(), date, desc, i, s);
        assert(ss.drop_last()[i] == ss[i]);
    }
}

/// Appending a session adds its contribution to a bucket total.
pub proof fn lemma_key_minutes_push(
    ss: Seq<SessionModel>,
    date: Seq<char>,
    desc: Option<Seq<char>>,
    s: SessionModel,
)
    ensures
        key_minutes(ss.push(s), date, desc) == key_minutes(ss, date, desc) + session_contrib(
            s,
            date,
            desc,
        ),
{
    assert(ss.push(s).drop_last() =~= ss);
    assert(ss.push(s).last() == s);
}

/// A found index really is a match.
pub proof fn lemma_find_session_props(ss: Seq<SessionModel>, date: Seq<char>, desc: Option<Seq<char>>)
    ensures
        match find_session(ss, date, desc) {
            Some(i) => 0 <= i < ss.len() && session_matches(ss[i], date, desc),
            None => true,
        },
    decreases ss.len(),
{
    if ss.len() > 0 && !session_matches(ss[0], date, desc) {
        lemma_find_session_props(ss.drop_first(), date, desc);
    }
}

/// Accumulation law. A positive contribution of `m` minutes raises the
/// total of its own `(date, description)` bucket by exactly `m`, whether
/// it merges into an existing session or opens a new one; so over any
/// sequence of such calls the bucket total is the sum of all positive
/// contributions. A non-positive contribution leaves the whole session
/// sequence unchanged.
pub proof fn lemma_add_session_accumulates(
    ss: Seq<SessionModel>,
    date: Seq<char>,
    m: i64,
    desc: Option<Seq<char>>,
)
    requires
        m > 0 ==> match find_session(ss, date, desc) {
            Some(i) => ss[i].minutes + m <= u64::MAX,
            None => true,
        },
    ensures
        m > 0 ==> key_minutes(spec_add_session(ss, date, m, desc), date, desc) == key_minutes(
            ss,
            date,
            desc,
        ) + m,
        m <= 0 ==> spec_add_session(ss, date, m, desc) == ss,
{
    if m > 0 {
        lemma_find_session_props(ss, date, desc);
        match find_session(ss, date, desc) {
            Some(i) => {
                let merged = merged_session(ss[i], m);
                assert(session_matches(merged, date, desc));
                assert(session_contrib(merged, date, desc) == ss[i].minutes + m);
                lemma_key_minutes_update(ss, date, desc, i, merged);
            },
            None => {
                let fresh = SessionModel { date: date, minutes: m as u64, description: desc };
                assert(session_matches(fresh, date, desc));
                lemma_key_minutes_push(ss, date, desc, fresh);
            },
        }
    }
}

/// Identity law. A contribution under one `(date, description)` identity
/// never changes the total of any other bucket; in particular, sessions
/// with a description and sessions without one never merge, even for the
/// same date and the same minutes.
pub proof fn lemma_add_session_other_bucket(
    ss: Seq<SessionModel>,
    date: Seq<char>,
    m: i64,
    desc: Option<Seq<char>>,
    date2: Seq<char>,
    desc2: Option<Seq<char>>,
)
    requires
        date2 != date || desc2 != desc,
    ensures
        key_minutes(spec_add_session(ss, date, m, desc), date2, desc2) == key_minutes(
            ss,
            date2,
            desc2,
        ),
{
    if m > 0 {
        lemma_find_session_props(ss, date, desc);
        match find_session(ss, date, desc) {
            Some(i) => {
                let merged = merged_session(ss[i], m);
                assert(session_contrib(ss[i], date2, desc2) == 0);
                assert(session_contrib(merged, date2, desc2) == 0);
                lemma_key_minutes_update(ss, date2, desc2, i, merged);
            },
            None => {
                let fresh = SessionModel { date: date, minutes: m as u64, description: desc };
                assert(session_contrib(fresh, date2, desc2) == 0);
                lemma_key_minutes_push(ss, date2, desc2, fresh);
            },
        }
    }
}

} // verus!
