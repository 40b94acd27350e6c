//! The text form in which a whole store is persisted: three named record
//! sequences with human-readable field names, string values carried
//! length-prefixed so that any text is stored verbatim. `to_text` produces
//! exactly the canonical form `spec_ser` of the store's model, and
//! `from_text` accepts a text exactly when re-serializing what it read
//! reproduces the text, so everything it accepts is canonical.

use vstd::prelude::*;

use crate::store::NotificationPeriod;
use crate::store::Reminder;
use crate::store::ReminderModel;
use crate::store::SessionModel;
use crate::store::StoreModel;
use crate::store::StudyData;
use crate::store::StudySession;
use crate::store::Todo;
use crate::store::TodoModel;
use crate::store::str_eq;

verus! {

/// Why a persisted store could not be read back or written out.
#[derive(Clone, Copy, Debug, PartialEq, Eq, Structural)]
pub enum PersistenceError {
    /// The backing text exists but is not a canonical store text.
    ReadError,
    /// The backing store cannot be overwritten.
    WriteError,
}

/// The decimal digit `d`.
pub open spec fn digit_char(d: nat) -> char {
    if d == 0 {
        '0'
    } else if d == 1 {
        '1'
    } else if d == 2 {
        '2'
    } else if d == 3 {
        '3'
    } else if d == 4 {
        '4'
    } else if d == 5 {
        '5'
    } else if d == 6 {
        '6'
    } else if d == 7 {
        '7'
    } else if d == 8 {
        '8'
    } else {
        '9'
    }
}

/// Decimal digits of `n`, most significant first, without leading zeros.
pub open spec fn enc_nat(n: nat) -> Seq<char>
    decreases n,
{
    if n < 10 {
        seq![digit_char(n)]
    } else {
        enc_nat(n / 10).push(digit_char(n % 10))
    }
}

/// A string value: its length, a colon, then the characters verbatim.
pub open spec fn enc_str(s: Seq<char>) -> Seq<char> {
    enc_nat(s.len()) + ":"@ + s
}

pub open spec fn enc_bool(b: bool) -> Seq<char> {
    if b {
        "true"@
    } else {
        "false"@
    }
}

/// An optional string: an explicit absent marker, never omission.
pub open spec fn enc_opt(o: Option<Seq<char>>) -> Seq<char> {
    match o {
        None => "none"@,
        Some(s) => "some "@ + enc_str(s),
    }
}

/// A lead-time marker: three zero-argument tags and one carrying days.
pub open spec fn enc_period(p: NotificationPeriod) -> Seq<char> {
    match p {
        NotificationPeriod::OneDay => "one_day"@,
        NotificationPeriod::ThreeDays => "three_days"@,
        NotificationPeriod::OneWeek => "one_week"@,
        NotificationPeriod::Custom(d) => "custom "@ + enc_nat(d as nat),
    }
}

pub open spec fn enc_period_items(ps: Seq<NotificationPeriod>) -> Seq<char>
    decreases ps.len(),
{
    if ps.len() == 0 {
        Seq::<char>::empty()
    } else {
        enc_period_items(ps.drop_last()) + " "@ + enc_period(ps.last())
    }
}

/// The marker list: its count, then each marker after a space.
pub open spec fn enc_periods(ps: Seq<NotificationPeriod>) -> Seq<char> {
    enc_nat(ps.len()) + enc_period_items(ps)
}

pub open spec fn enc_session(s: SessionModel) -> Seq<char> {
    "date "@ + enc_str(s.date) + " minutes "@ + enc_nat(s.minutes as nat) + " description "@
        + enc_opt(s.description) + "\n"@
}

pub open spec fn enc_sessions(ss: Seq<SessionModel>) -> Seq<char>
    decreases ss.len(),
{
    if ss.len() == 0 {
        Seq::<char>::empty()
    } else {
        enc_sessions(ss.drop_last()) + enc_session(ss.last())
    }
}

pub open spec fn enc_todo(t: TodoModel) -> Seq<char> {
    "id "@ + enc_nat(t.id as nat) + " text "@ + enc_str(t.text) + " completed "@ + enc_bool(
        t.completed,
    ) + " created_at "@ + enc_str(t.created_at) + "\n"@
}

pub open spec fn enc_todos(ts: Seq<TodoModel>) -> Seq<char>
    decreases ts.len(),
{
    if ts.len() == 0 {
        Seq::<char>::empty()
    } else {
        enc_todos(ts.drop_last()) + enc_todo(ts.last())
    }
}

pub open spec fn enc_reminder(r: ReminderModel) -> Seq<char> {
    "id "@ + enc_nat(r.id as nat) + " title "@ + enc_str(r.title) + " description "@ + enc_opt(
        r.description,
    ) + " due_date "@ + enc_str(r.due_date) + " created_at "@ + enc_str(r.created_at)
        + " notification_periods "@ + enc_periods(r.notification_periods) + " is_completed "@
        + enc_bool(r.is_completed) + "\n"@
}

pub open spec fn enc_reminders(rs: Seq<ReminderModel>) -> Seq<char>
    decreases rs.len(),
{
    if rs.len() == 0 {
        Seq::<char>::empty()
    } else {
        enc_reminders(rs.drop_last()) + enc_reminder(rs.last())
    }
}

/// The canonical text of a whole store.
pub open spec fn spec_ser(m: StoreModel) -> Seq<char> {
    "sessions "@ + enc_nat(m.sessions.len()) + "\n"@ + enc_sessions(m.sessions) + "todos "@
        + enc_nat(m.todos.len()) + "\n"@ + enc_todos(m.todos) + "reminders "@ + enc_nat(
        m.reminders.len(),
    ) + "\n"@ + enc_reminders(m.reminders)
}

fn digit_str(d: u64) -> (r: &'static str)
    requires
        d < 10,
    ensures
        r@ == enc_nat(d as nat),
{
    let r: &'static str = match d {
        0 => "0",
        1 => "1",
        2 => "2",
        3 => "3",
        4 => "4",
        5 => "5",
        6 => "6",
        7 => "7",
        8 => "8",
        _ => "9",
    };
    proof {
        reveal_strlit("0");
        reveal_strlit("1");
        reveal_strlit("2");
        reveal_strlit("3");
        reveal_strlit("4");
        reveal_strlit("5");
        reveal_strlit("6");
        reveal_strlit("7");
        reveal_strlit("8");
        reveal_strlit("9");
        assert(r@ =~= seq![digit_char(d as nat)]);
    }
    r
}

/// The decimal form of `n`.
fn u64_string(n: u64) -> (r: String)
    ensures
        r@ == enc_nat(n as nat),
    decreases n,
{
    if n < 10 {
        let r = digit_str(n).to_owned();
        r
    } else {
        let mut r = u64_string(n / 10);
        r.append(digit_str(n % 10));
        proof {
            assert(r@ =~= enc_nat(n as nat));
        }
        r
    }
}

fn write_u64(out: &mut String, n: u64)
    ensures
        final(out)@ == old(out)@ + enc_nat(n as nat),
{
    let s = u64_string(n);
    out.append(s.as_str());
}

fn write_str_val(out: &mut String, s: &str)
    ensures
        final(out)@ == old(out)@ + enc_str(s@),
{
    let n = s.unicode_len();
    write_u64(out, n as u64);
    out.append(":");
    out.append(s);
    proof {
        assert(final(out)@ =~= old(out)@ + enc_str(s@));
    }
}

fn write_bool(out: &mut String, b: bool)
    ensures
        final(out)@ == old(out)@ + enc_bool(b),
{
    if b {
        out.append("true");
    } else {
        out.append("false");
    }
}

fn write_opt(out: &mut String, o: &Option<String>)
    ensures
        final(out)@ == old(out)@ + enc_opt(crate::store::opt_view(*o)),
{
    match o {
        None => {
            out.append("none");
        },
        Some(s) => {
            out.append("some ");
            write_str_val(out, s.as_str());
            proof {
                assert(final(out)@ =~= old(out)@ + enc_opt(crate::store::opt_view(*o)));
            }
        },
    }
}

fn write_period(out: &mut String, p: &NotificationPeriod)
    ensures
        final(out)@ == old(out)@ + enc_period(*p),
{
    match p {
        NotificationPeriod::OneDay => {
            out.append("one_day");
        },
        NotificationPeriod::ThreeDays => {
            out.append("three_days");
        },
        NotificationPeriod::OneWeek => {
            out.append("one_week");
        },
        NotificationPeriod::Custom(d) => {
            out.append("custom ");
            write_u64(out, *d as u64);
            proof {
                assert(final(out)@ =~= old(out)@ + enc_period(*p));
            }
        },
    }
}

#[verifier::loop_isolation(false)]
fn write_periods(out: &mut String, v: &Vec<NotificationPeriod>)
    ensures
        final(out)@ == old(out)@ + enc_periods(v@),
{
    let n = v.len();
    write_u64(out, n as u64);
    let mut i: usize = 0;
    while i < n
        invariant
            i <= n,
            out@ == old(out)@ + enc_nat(v@.len()) + enc_period_items(v@.take(i as int)),
        decreases n - i,
    {
        out.append(" ");
        write_period(out, &v[i]);
        proof {
            assert(v@.take(i as int + 1).drop_last() =~= v@.take(i as int));
            assert(v@.take(i as int + 1).last() == v@[i as int]);
            assert(out@ =~= old(out)@ + enc_nat(v@.len()) + enc_period_items(
                v@.take(i as int + 1),
            ));
        }
        i += 1;
    }
    proof {
        assert(v@.take(n as int) =~= v@);
    }
}

fn write_session(out: &mut String, s: &StudySession)
    ensures
        final(out)@ == old(out)@ + enc_session(s@),
{
    out.append("date ");
    write_str_val(out, s.date.as_str());
    out.append(" minutes ");
    write_u64(out, s.minutes);
    out.append(" description ");
    write_opt(out, &s.description);
    out.append("\n");
    proof {
        assert(final(out)@ =~= old(out)@ + enc_session(s@));
    }
}

fn write_todo(out: &mut String, t: &Todo)
    ensures
        final(out)@ == old(out)@ + enc_todo(t@),
{
    out.append("id ");
    write_u64(out, t.id);
    out.append(" text ");
    write_str_val(out, t.text.as_str());
    out.append(" completed ");
    write_bool(out, t.completed);
    out.append(" created_at ");
    write_str_val(out, t.created_at.as_str());
    out.append("\n");
    proof {
        assert(final(out)@ =~= old(out)@ + enc_todo(t@));
    }
}

fn write_reminder(out: &mut String, r: &Reminder)
    ensures
        final(out)@ == old(out)@ + enc_reminder(r@),
{
    out.append("id ");
    write_u64(out, r.id);
    out.append(" title ");
    write_str_val(out, r.title.as_str());
    out.append(" description ");
    write_opt(out, &r.description);
    out.append(" due_date ");
    write_str_val(out, r.due_date.as_str());
    out.append(" created_at ");
    write_str_val(out, r.created_at.as_str());
    out.append(" notification_periods ");
    write_periods(out, &r.notification_periods);
    out.append(" is_completed ");
    write_bool(out, r.is_completed);
    out.append("\n");
    proof {
        assert(final(out)@ =~= old(out)@ + enc_reminder(r@));
    }
}

impl StudyData {
    /// The canonical text of this store, the form in which it is
    /// persisted.
    #[verifier::loop_isolation(false)]
    #[verifier::rlimit(30)]
    pub fn to_text(&self) -> (r: String)
        ensures
            r@ == spec_ser(self@),
    {
        let mut out = String::new();
        out.append("sessions ");
        let ns = self.sessions.len();
        write_u64(&mut out, ns as u64);
        out.append("\n");
        let ghost head_s = "sessions "@ + enc_nat(self@.sessions.len()) + "\n"@;
        proof {
            assert(out@ =~= head_s + enc_sessions(self@.sessions.take(0)));
        }
        let mut i: usize = 0;
        while i < ns
            invariant
                i <= ns,
                out@ == head_s + enc_sessions(self@.sessions.take(i as int)),
            decreases ns - i,
        {
            write_session(&mut out, &self.sessions[i]);
            proof {
                let ghost ss = self@.sessions;
                assert(ss.take(i as int + 1).drop_last() =~= ss.take(i as int));
                assert(ss.take(i as int + 1).last() == ss[i as int]);
                assert(ss[i as int] == self.sessions@[i as int]@);
                assert(out@ =~= head_s + enc_sessions(ss.take(i as int + 1)));
            }
            i += 1;
        }
        proof {
            assert(self@.sessions.take(ns as int) =~= self@.sessions);
        }
        out.append("todos ");
        let nt = self.todos.len();
        write_u64(&mut out, nt as u64);
        out.append("\n");
        let ghost head_t = head_s + enc_sessions(self@.sessions) + "todos "@ + enc_nat(
            self@.todos.len(),
        ) + "\n"@;
        proof {
            assert(out@ =~= head_t + enc_todos(self@.todos.take(0)));
        }
        let mut j: usize = 0;
        while j < nt
            invariant
                j <= nt,
                out@ == head_t + enc_todos(self@.todos.take(j as int)),
            decreases nt - j,
        {
            write_todo(&mut out, &self.todos[j]);
            proof {
                let ghost ts = self@.todos;
                assert(ts.take(j as int + 1).drop_last() =~= ts.take(j as int));
                assert(ts.take(j as int + 1).last() == ts[j as int]);
                assert(ts[j as int] == self.todos@[j as int]@);
                assert(out@ =~= head_t + enc_todos(ts.take(j as int + 1)));
            }
            j += 1;
        }
        proof {
            assert(self@.todos.take(nt as int) =~= self@.todos);
        }
        out.append("reminders ");
        let nr = self.reminders.len();
        write_u64(&mut out, nr as u64);
        out.append("\n");
        let ghost head_r = head_t + enc_todos(self@.todos) + "reminders "@ + enc_nat(
            self@.reminders.len(),
        ) + "\n"@;
        proof {
            assert(out@ =~= head_r + enc_reminders(self@.reminders.take(0)));
        }
        let mut k: usize = 0;
        while k < nr
            invariant
                k <= nr,
                out@ == head_r + enc_reminders(self@.reminders.take(k as int)),
            decreases nr - k,
        {
            write_reminder(&mut out, &self.reminders[k]);
            proof {
                let ghost rs = self@.reminders;
                assert(rs.take(k as int + 1).drop_last() =~= rs.take(k as int));
                assert(rs.take(k as int + 1).last() == rs[k as int]);
                assert(rs[k as int] == self.reminders@[k as int]@);
                assert(out@ =~= head_r + enc_reminders(rs.take(k as int + 1)));
            }
            k += 1;
        }
        proof {
            assert(self@.reminders.take(nr as int) =~= self@.reminders);
            assert(out@ =~= spec_ser(self@));
        }
        out
    }
}

/// The literal `l` stands in `s` at position `i`.
pub open spec fn lit_at(s: Seq<char>, i: int, l: Seq<char>) -> bool {
    0 <= i && i + l.len() <= s.len() && s.subrange(i, i + l.len()) == l
}

/// Position `j` is the end of the text or holds a non-digit.
pub open spec fn nondigit_at(s: Seq<char>, j: int) -> bool {
    j == s.len() || (0 <= j < s.len() && !is_digit_char(s[j]))
}

/// End of the digit run that starts at `i`.
pub open spec fn run_end(s: Seq<char>, i: int) -> int
    decreases s.len() - i,
    when i <= s.len()
{
    if i < 0 || i >= s.len() {
        i
    } else if !is_digit_char(s[i]) {
        i
    } else {
        run_end(s, i + 1)
    }
}

/// The digit run ends exactly where the digits stop.
pub proof fn lemma_run_end_exact(s: Seq<char>, i: int, j: int)
    requires
        0 <= i <= j <= s.len(),
        forall|k: int| i <= k < j ==> is_digit_char(s[k]),
        nondigit_at(s, j),
    ensures
        run_end(s, i) == j,
    decreases j - i,
{
    if i < j {
        lemma_run_end_exact(s, i + 1, j);
    }
}

/// What is between `i` and the run's end is digits, and the run is
/// maximal.
pub proof fn lemma_run_end_props(s: Seq<char>, i: int)
    requires
        0 <= i <= s.len(),
    ensures
        i <= run_end(s, i) <= s.len(),
        forall|k: int| i <= k < run_end(s, i) ==> is_digit_char(s[k]),
        nondigit_at(s, run_end(s, i)),
    decreases s.len() - i,
{
    if i < s.len() && is_digit_char(s[i]) {
        lemma_run_end_props(s, i + 1);
    }
}

/// The value of a digit prefix is at most the value of the whole.
pub proof fn lemma_val_prefix(ds: Seq<char>, k: int)
    requires
        0 <= k <= ds.len(),
    ensures
        val_of(ds.take(k)) <= val_of(ds),
    decreases ds.len(),
{
    if k < ds.len() {
        let dl = ds.drop_last();
        assert(ds.take(k) =~= dl.take(k));
        lemma_val_prefix(dl, k);
        assert(val_of(ds) == val_of(dl) * 10 + digit_val(ds.last()));
        assert(val_of(dl) * 10 >= val_of(dl)) by (nonlinear_arith)
            requires
                val_of(dl) >= 0,
        ;
    } else {
        assert(ds.take(k) =~= ds);
    }
}

fn digit_of(c: char) -> (r: Option<u64>)
    ensures
        r == (if is_digit_char(c) {
            Some(digit_val(c) as u64)
        } else {
            None::<u64>
        }),
{
    match c {
        '0' => Some(0),
        '1' => Some(1),
        '2' => Some(2),
        '3' => Some(3),
        '4' => Some(4),
        '5' => Some(5),
        '6' => Some(6),
        '7' => Some(7),
        '8' => Some(8),
        '9' => Some(9),
        _ => None,
    }
}

#[verifier::loop_isolation(false)]
fn parse_nat(s: &str, i: usize) -> (r: Option<(u64, usize)>)
    requires
        i <= s@.len(),
    ensures
        r matches Some(p) ==> i < p.1 <= s@.len(),
        ({
            let m = run_end(s@, i as int);
            let v = val_of(s@.subrange(i as int, m));
            if m == i {
                r is None
            } else if v > u64::MAX {
                r is None
            } else {
                r matches Some(p) && p.0 as nat == v && p.1 as int == m
            }
        }),
{
    proof {
        lemma_run_end_props(s@, i as int);
    }
    let n = s.unicode_len();
    let mut j: usize = i;
    let mut acc: u64 = 0;
    let mut any: bool = false;
    while j < n
        invariant
            i <= j <= n,
            any <==> i < j,
            forall|k: int| i <= k < j ==> is_digit_char(s@[k]),
            acc == val_of(s@.subrange(i as int, j as int)),
        decreases n - j,
    {
        let c = s.get_char(j);
        match digit_of(c) {
            Some(d) => {
                proof {
                    assert(s@.subrange(i as int, j as int + 1).drop_last() =~= s@.subrange(
                        i as int,
                        j as int,
                    ));
                    assert(s@.subrange(i as int, j as int + 1).last() == s@[j as int]);
                }
                if acc > (u64::MAX - d) / 10 {
                    proof {
                        let m = run_end(s@, i as int);
                        vstd::arithmetic::div_mod::lemma_fundamental_div_mod(
                            (u64::MAX - d) as int,
                            10,
                        );
                        assert(acc * 10 >= ((u64::MAX - d) / 10 + 1) * 10) by (nonlinear_arith)
                            requires
                                acc >= (u64::MAX - d) / 10 + 1,
                        ;
                        assert(acc * 10 + d > u64::MAX);
                        assert(val_of(s@.subrange(i as int, j as int + 1)) > u64::MAX);
                        assert(m >= j + 1) by {
                            if m < j + 1 {
                                assert(is_digit_char(s@[m]));
                                assert(!nondigit_at(s@, m));
                                lemma_run_end_props(s@, i as int);
                            }
                        }
                        let ds = s@.subrange(i as int, m);
                        assert(s@.subrange(i as int, j as int + 1) =~= ds.take(j + 1 - i));
                        lemma_val_prefix(ds, j + 1 - i);
                        assert(val_of(ds) > u64::MAX);
                    }
                    return None;
                }
                proof {
                    assert(acc * 10 + d <= u64::MAX) by (nonlinear_arith)
                        requires
                            0 <= acc,
                            0 <= d < 10,
                            acc <= (u64::MAX - d) / 10,
                    ;
                }
                acc = acc * 10 + d;
                any = true;
                j += 1;
            },
            None => {
                proof {
                    lemma_run_end_exact(s@, i as int, j as int);
                }
                if !any {
                    return None;
                }
                return Some((acc, j));
            },
        }
    }
    proof {
        lemma_run_end_exact(s@, i as int, j as int);
    }
    if !any {
        return None;
    }
    Some((acc, j))
}

#[verifier::loop_isolation(false)]
fn expect(s: &str, i: usize, lit: &str) -> (r: Option<usize>)
    requires
        i <= s@.len(),
    ensures
        r matches Some(j) ==> i <= j <= s@.len(),
        lit_at(s@, i as int, lit@) ==> (r matches Some(j) && j as int == i + lit@.len()),
        !lit_at(s@, i as int, lit@) ==> r is None,
{
    let n = s.unicode_len();
    let ll = lit.unicode_len();
    if ll > n - i {
        proof {
            assert(!lit_at(s@, i as int, lit@));
        }
        return None;
    }
    let mut k: usize = 0;
    while k < ll
        invariant
            k <= ll,
            forall|q: int| 0 <= q < k ==> s@[i + q] == lit@[q],
        decreases ll - k,
    {
        if s.get_char(i + k) != lit.get_char(k) {
            proof {
                if lit_at(s@, i as int, lit@) {
                    assert(s@.subrange(i as int, i + lit@.len())[k as int] == lit@[k as int]);
                    assert(false);
                }
            }
            return None;
        }
        k += 1;
    }
    proof {
        assert(s@.subrange(i as int, i + lit@.len()) =~= lit@);
    }
    Some(i + ll)
}

/// The decimal form of `n` stands at `i`, ended by a non-digit.
pub open spec fn nat_at(s: Seq<char>, i: int, n: nat) -> bool {
    lit_at(s, i, enc_nat(n)) && nondigit_at(s, i + enc_nat(n).len())
}

pub open spec fn str_at(s: Seq<char>, i: int, v: Seq<char>) -> bool {
    lit_at(s, i, enc_str(v))
}

pub open spec fn bool_at(s: Seq<char>, i: int, b: bool) -> bool {
    lit_at(s, i, enc_bool(b))
}

pub open spec fn opt_at(s: Seq<char>, i: int, o: Option<Seq<char>>) -> bool {
    lit_at(s, i, enc_opt(o))
}

/// The marker's text stands at `i`, ended by a non-digit.
pub open spec fn period_at(s: Seq<char>, i: int, p: NotificationPeriod) -> bool {
    lit_at(s, i, enc_period(p)) && nondigit_at(s, i + enc_period(p).len())
}

/// A concatenation standing at `i` splits into its parts.
pub proof fn lemma_lit_at_split(s: Seq<char>, i: int, x: Seq<char>, y: Seq<char>)
    requires
        lit_at(s, i, x + y),
    ensures
        lit_at(s, i, x),
        lit_at(s, i + x.len(), y),
{
    assert((x + y).len() == x.len() + y.len());
    let w = s.subrange(i, i + x.len() + y.len());
    assert forall|k: int| 0 <= k < x.len() implies s.subrange(i, i + x.len())[k] == x[k] by {
        assert(w[k] == (x + y)[k]);
        assert((x + y)[k] == x[k]);
    }
    assert(s.subrange(i, i + x.len()) =~= x);
    assert forall|k: int| 0 <= k < y.len() implies s.subrange(
        i + x.len(),
        i + x.len() + y.len(),
    )[k] == y[k] by {
        assert(w[x.len() + k] == (x + y)[x.len() + k]);
        assert((x + y)[x.len() + k] == y[k]);
    }
    assert(s.subrange(i + x.len(), i + x.len() + y.len()) =~= y);
}

/// Where the decimal form of `n` stands ended by a non-digit, the digit
/// run is exactly that form and reads back as `n`.
pub proof fn lemma_nat_at_pin(s: Seq<char>, i: int, n: nat)
    requires
        nat_at(s, i, n),
    ensures
        run_end(s, i) == i + enc_nat(n).len(),
        val_of(s.subrange(i, i + enc_nat(n).len())) == n,
{
    lemma_enc_nat_props(n);
    let l = enc_nat(n).len() as int;
    assert forall|k: int| i <= k < i + l implies is_digit_char(s[k]) by {
        assert(s.subrange(i, i + l)[k - i] == s[k]);
        assert(is_digit_char(enc_nat(n)[k - i]));
    }
    lemma_run_end_exact(s, i, i + l);
}

/// An encoded string standing at `i` splits into its length, the colon
/// and its characters.
pub proof fn lemma_str_at_parts(s: Seq<char>, i: int, v: Seq<char>)
    requires
        str_at(s, i, v),
    ensures
        nat_at(s, i, v.len()),
        v.len() <= s.len(),
        enc_str(v).len() == enc_nat(v.len()).len() + 1 + v.len(),
        lit_at(s, i + enc_nat(v.len()).len(), ":"@),
        lit_at(s, i + enc_nat(v.len()).len() + 1, v),
        run_end(s, i) == i + enc_nat(v.len()).len(),
        val_of(s.subrange(i, i + enc_nat(v.len()).len())) == v.len(),
{
    reveal_strlit(":");
    lemma_lit_at_split(s, i, enc_nat(v.len()) + ":"@, v);
    lemma_lit_at_split(s, i, enc_nat(v.len()), ":"@);
    let l = enc_nat(v.len()).len() as int;
    assert(s.subrange(i + l, i + l + 1)[0] == s[i + l]);
    assert(s[i + l] == ':');
    assert(!is_digit_char(':'));
    lemma_nat_at_pin(s, i, v.len());
}

#[verifier::loop_isolation(false)]
fn parse_str_val(s: &str, i: usize) -> (r: Option<(String, usize)>)
    requires
        i <= s@.len(),
    ensures
        r matches Some(p) ==> i < p.1 <= s@.len(),
        forall|v: Seq<char>|
            str_at(s@, i as int, v) ==> (r matches Some(p) && p.0@ == v && p.1 as int == i
                + enc_str(v).len()),
{
    let n = s.unicode_len();
    let (len, j) = match parse_nat(s, i) {
        Some(p) => p,
        None => {
            proof {
                assert forall|v: Seq<char>| !str_at(s@, i as int, v) by {
                    if str_at(s@, i as int, v) {
                        lemma_str_at_parts(s@, i as int, v);
                    }
                }
            }
            return None;
        },
    };
    let j2 = match expect(s, j, ":") {
        Some(j2) => j2,
        None => {
            proof {
                assert forall|v: Seq<char>| !str_at(s@, i as int, v) by {
                    if str_at(s@, i as int, v) {
                        lemma_str_at_parts(s@, i as int, v);
                    }
                }
            }
            return None;
        },
    };
    if j2 >= n {
        if len > 0 {
            proof {
                assert forall|v: Seq<char>| !str_at(s@, i as int, v) by {
                    if str_at(s@, i as int, v) {
                        lemma_str_at_parts(s@, i as int, v);
                    }
                }
            }
            return None;
        }
    }
    if len > (n - j2) as u64 {
        proof {
            assert forall|v: Seq<char>| !str_at(s@, i as int, v) by {
                if str_at(s@, i as int, v) {
                    lemma_str_at_parts(s@, i as int, v);
                }
            }
        }
        return None;
    }
    let end: usize = j2 + (len as usize);
    let content = s.substring_char(j2, end);
    let owned = content.to_owned();
    if end > i {
        proof {
            assert forall|v: Seq<char>|
                str_at(s@, i as int, v) implies (owned@ == v && end as int == i
                + enc_str(v).len()) by {
                lemma_str_at_parts(s@, i as int, v);
                assert(s@.subrange(
                    i + enc_nat(v.len()).len() + 1,
                    i + enc_nat(v.len()).len() + 1 + v.len(),
                ) == v);
            }
        }
        Some((owned, end))
    } else {
        proof {
            assert forall|v: Seq<char>| !str_at(s@, i as int, v) by {
                if str_at(s@, i as int, v) {
                    lemma_str_at_parts(s@, i as int, v);
                }
            }
        }
        None
    }
}

fn parse_bool(s: &str, i: usize) -> (r: Option<(bool, usize)>)
    requires
        i <= s@.len(),
    ensures
        r matches Some(p) ==> i <= p.1 <= s@.len(),
        forall|b: bool|
            bool_at(s@, i as int, b) ==> (r matches Some(q) && q.0 == b && q.1 as int == i
                + enc_bool(b).len()),
{
    proof {
        reveal_strlit("true");
        reveal_strlit("false");
        if bool_at(s@, i as int, true) && bool_at(s@, i as int, false) {
            assert(s@.subrange(i as int, i + 4)[0] == s@[i as int]);
            assert(s@.subrange(i as int, i + 5)[0] == s@[i as int]);
            assert(false);
        }
    }
    match expect(s, i, "true") {
        Some(j) => Some((true, j)),
        None => match expect(s, i, "false") {
            Some(j) => Some((false, j)),
            None => None,
        },
    }
}

fn parse_opt_val(s: &str, i: usize) -> (r: Option<(Option<String>, usize)>)
    requires
        i <= s@.len(),
    ensures
        r matches Some(p) ==> i <= p.1 <= s@.len(),
        forall|o: Option<Seq<char>>|
            opt_at(s@, i as int, o) ==> (r matches Some(p) && crate::store::opt_view(p.0) == o
                && p.1 as int == i + enc_opt(o).len()),
{
    proof {
        reveal_strlit("none");
        reveal_strlit("some ");
    }
    match expect(s, i, "none") {
        Some(j) => {
            proof {
                reveal_strlit("none");
                reveal_strlit("some ");
                assert forall|o: Option<Seq<char>>|
                    opt_at(s@, i as int, o) implies (crate::store::opt_view(
                    None::<String>,
                ) == o && j as int == i + enc_opt(o).len()) by {
                    if let Some(v) = o {
                        lemma_lit_at_split(s@, i as int, "some "@, enc_str(v));
                        assert(s@.subrange(i as int, i + 5)[0] == s@[i as int]);
                        assert(s@.subrange(i as int, i + 4)[0] == s@[i as int]);
                        assert(false);
                    }
                }
            }
            Some((None, j))
        },
        None => {
            let j = match expect(s, i, "some ") {
                Some(j) => j,
                None => {
                    proof {
                        reveal_strlit("none");
                        reveal_strlit("some ");
                        assert forall|o: Option<Seq<char>>| !opt_at(s@, i as int, o) by {
                            if opt_at(s@, i as int, o) {
                                if let Some(v) = o {
                                    lemma_lit_at_split(s@, i as int, "some "@, enc_str(v));
                                }
                            }
                        }
                    }
                    return None;
                },
            };
            match parse_str_val(s, j) {
                Some((v, j2)) => {
                    proof {
                        reveal_strlit("none");
                        reveal_strlit("some ");
                        assert forall|o: Option<Seq<char>>|
                            opt_at(s@, i as int, o) implies (crate::store::opt_view(
                            Some(v),
                        ) == o && j2 as int == i + enc_opt(o).len()) by {
                            match o {
                                Some(u) => {
                                    lemma_lit_at_split(s@, i as int, "some "@, enc_str(u));
                                    assert(str_at(s@, i + 5, u));
                                },
                                None => {
                                    assert(lit_at(s@, i as int, "none"@));
                                    assert(false);
                                },
                            }
                        }
                    }
                    Some((Some(v), j2))
                },
                None => {
                    proof {
                        reveal_strlit("none");
                        reveal_strlit("some ");
                        assert forall|o: Option<Seq<char>>| !opt_at(s@, i as int, o) by {
                            if opt_at(s@, i as int, o) {
                                match o {
                                    Some(u) => {
                                        lemma_lit_at_split(s@, i as int, "some "@, enc_str(u));
                                        assert(str_at(s@, i + 5, u));
                                        assert(false);
                                    },
                                    None => {
                                        assert(lit_at(s@, i as int, "none"@));
                                        assert(false);
                                    },
                                }
                            }
                        }
                    }
                    None
                },
            }
        },
    }
}

/// The four marker spellings stand at `i` for at most one marker: no tag
/// is a prefix of another, and a digit ends the custom day count.
proof fn lemma_period_at_cases(s: Seq<char>, i: int, p: NotificationPeriod)
    requires
        period_at(s, i, p),
    ensures
        p matches NotificationPeriod::OneDay ==> lit_at(s, i, "one_day"@),
        p matches NotificationPeriod::ThreeDays ==> lit_at(s, i, "three_days"@),
        p matches NotificationPeriod::OneWeek ==> lit_at(s, i, "one_week"@),
        p matches NotificationPeriod::Custom(d) ==> lit_at(s, i, "custom "@) && nat_at(
            s,
            i + 7,
            d as nat,
        ),
        !(p matches NotificationPeriod::OneDay) ==> !lit_at(s, i, "one_day"@),
        !(p matches NotificationPeriod::ThreeDays) ==> !lit_at(s, i, "three_days"@),
        !(p matches NotificationPeriod::OneWeek) ==> !lit_at(s, i, "one_week"@),
        !(p matches NotificationPeriod::Custom(_)) ==> !lit_at(s, i, "custom "@),
{
    reveal_strlit("one_day");
    reveal_strlit("three_days");
    reveal_strlit("one_week");
    reveal_strlit("custom ");
    if let NotificationPeriod::Custom(d) = p {
        lemma_lit_at_split(s, i, "custom "@, enc_nat(d as nat));
        lemma_enc_nat_props(d as nat);
        assert(s.subrange(i + 7, i + 7 + enc_nat(d as nat).len())[0] == s[i + 7]);
        assert(is_digit_char(s[i + 7]));
    }
    let e = enc_period(p);
    assert forall|l: Seq<char>|
        (l == "one_day"@ || l == "three_days"@ || l == "one_week"@) && l != e && lit_at(
            s,
            i,
            l,
        ) implies false by {
        assert(s.subrange(i, i + l.len())[0] == s[i]);
        assert(s.subrange(i, i + e.len())[0] == s[i]);
        match p {
            NotificationPeriod::OneDay => {
                assert(s[i] == 'o');
                if l == "one_week"@ {
                    assert(s.subrange(i, i + l.len())[4] == s[i + 4]);
                    assert(s.subrange(i, i + e.len())[4] == s[i + 4]);
                    assert(false);
                }
            },
            NotificationPeriod::ThreeDays => {
                assert(s[i] == 't');
            },
            NotificationPeriod::OneWeek => {
                assert(s[i] == 'o');
                if l == "one_day"@ {
                    assert(s.subrange(i, i + l.len())[4] == s[i + 4]);
                    assert(s.subrange(i, i + e.len())[4] == s[i + 4]);
                    assert(false);
                }
            },
            NotificationPeriod::Custom(d) => {
                assert(s.subrange(i, i + 7)[0] == s[i]);
                assert(s[i] == 'c');
            },
        }
    }
    if !(p matches NotificationPeriod::Custom(_)) && lit_at(s, i, "custom "@) {
        assert(s.subrange(i, i + 7)[0] == s[i]);
        assert(s.subrange(i, i + e.len())[0] == s[i]);
        assert(s[i] == 'c');
        assert(false);
    }
}

fn parse_period(s: &str, i: usize) -> (r: Option<(NotificationPeriod, usize)>)
    requires
        i <= s@.len(),
    ensures
        r matches Some(p) ==> i <= p.1 <= s@.len(),
        forall|p: NotificationPeriod|
            period_at(s@, i as int, p) ==> (r matches Some(q) && q.0 == p && q.1 as int == i
                + enc_period(p).len()),
{
    if let Some(j) = expect(s, i, "one_day") {
        proof {
            reveal_strlit("one_day");
            assert forall|p: NotificationPeriod|
                period_at(s@, i as int, p) implies (p == NotificationPeriod::OneDay && j as int
                == i + enc_period(p).len()) by {
                lemma_period_at_cases(s@, i as int, p);
            }
        }
        return Some((NotificationPeriod::OneDay, j));
    }
    if let Some(j) = expect(s, i, "three_days") {
        proof {
            reveal_strlit("three_days");
            assert forall|p: NotificationPeriod|
                period_at(s@, i as int, p) implies (p == NotificationPeriod::ThreeDays
                && j as int == i + enc_period(p).len()) by {
                lemma_period_at_cases(s@, i as int, p);
            }
        }
        return Some((NotificationPeriod::ThreeDays, j));
    }
    if let Some(j) = expect(s, i, "one_week") {
        proof {
            reveal_strlit("one_week");
            assert forall|p: NotificationPeriod|
                period_at(s@, i as int, p) implies (p == NotificationPeriod::OneWeek && j as int
                == i + enc_period(p).len()) by {
                lemma_period_at_cases(s@, i as int, p);
            }
        }
        return Some((NotificationPeriod::OneWeek, j));
    }
    let j = match expect(s, i, "custom ") {
        Some(j) => j,
        None => {
            proof {
                assert forall|p: NotificationPeriod| !period_at(s@, i as int, p) by {
                    if period_at(s@, i as int, p) {
                        lemma_period_at_cases(s@, i as int, p);
                    }
                }
            }
            return None;
        },
    };
    match parse_nat(s, j) {
        Some((v, j2)) => {
            if v > u32::MAX as u64 {
                proof {
                    assert forall|p: NotificationPeriod| !period_at(s@, i as int, p) by {
                        if period_at(s@, i as int, p) {
                            lemma_period_at_cases(s@, i as int, p);
                            if let NotificationPeriod::Custom(d) = p {
                                reveal_strlit("custom ");
                                lemma_nat_at_pin(s@, i + 7, d as nat);
                            }
                        }
                    }
                }
                None
            } else {
                proof {
                    assert forall|p: NotificationPeriod|
                        period_at(s@, i as int, p) implies (p == NotificationPeriod::Custom(
                        v as u32,
                    ) && j2 as int == i + enc_period(p).len()) by {
                        lemma_period_at_cases(s@, i as int, p);
                        if let NotificationPeriod::Custom(d) = p {
                            reveal_strlit("custom ");
                            lemma_nat_at_pin(s@, i + 7, d as nat);
                            assert(enc_period(p).len() == 7 + enc_nat(d as nat).len());
                        }
                    }
                }
                Some((NotificationPeriod::Custom(v as u32), j2))
            }
        },
        None => {
            proof {
                assert forall|p: NotificationPeriod| !period_at(s@, i as int, p) by {
                    if period_at(s@, i as int, p) {
                        lemma_period_at_cases(s@, i as int, p);
                        if let NotificationPeriod::Custom(d) = p {
                            reveal_strlit("custom ");
                            lemma_nat_at_pin(s@, i + 7, d as nat);
                        }
                    }
                }
            }
            None
        },
    }
}

/// The marker list's text stands at `i`, ended by a non-digit.
pub open spec fn periods_at(s: Seq<char>, i: int, ps: Seq<NotificationPeriod>) -> bool {
    lit_at(s, i, enc_periods(ps)) && nondigit_at(s, i + enc_periods(ps).len())
}

/// The markers from position `k` on, each after its separating space.
pub open spec fn enc_period_items_from(ps: Seq<NotificationPeriod>, k: int) -> Seq<char>
    decreases ps.len() - k,
    when k <= ps.len()
{
    if k < 0 || k >= ps.len() {
        Seq::<char>::empty()
    } else {
        (" "@ + enc_period(ps[k])) + enc_period_items_from(ps, k + 1)
    }
}

/// A marker list's text is the text of its first `k` markers followed by
/// the text of the rest.
proof fn lemma_items_bridge(ps: Seq<NotificationPeriod>, k: int)
    requires
        0 <= k <= ps.len(),
    ensures
        enc_period_items(ps) == enc_period_items(ps.take(k)) + enc_period_items_from(ps, k),
    decreases ps.len() - k,
{
    if k == ps.len() {
        assert(ps.take(k) =~= ps);
        assert(enc_period_items(ps) + Seq::<char>::empty() =~= enc_period_items(ps));
    } else {
        lemma_items_bridge(ps, k + 1);
        let a = enc_period_items(ps.take(k));
        let p = enc_period(ps[k]);
        let f = enc_period_items_from(ps, k + 1);
        assert(ps.take(k + 1).drop_last() =~= ps.take(k));
        assert(ps.take(k + 1).last() == ps[k]);
        assert(enc_period_items(ps.take(k + 1)) == (a + " "@) + p);
        seq_assoc(a + " "@, p, f);
        seq_assoc(a, " "@, p + f);
        seq_assoc(" "@, p, f);
    }
}

/// A marker list's text is at least as long as the list.
proof fn lemma_items_len(ps: Seq<NotificationPeriod>)
    ensures
        enc_period_items(ps).len() >= ps.len(),
    decreases ps.len(),
{
    reveal_strlit(" ");
    if ps.len() > 0 {
        lemma_items_len(ps.drop_last());
    }
}

/// An encoded marker list standing at `i` splits into its count and its
/// markers.
proof fn lemma_periods_at_parts(s: Seq<char>, i: int, ps: Seq<NotificationPeriod>)
    requires
        periods_at(s, i, ps),
    ensures
        nat_at(s, i, ps.len()),
        ps.len() <= s.len(),
        lit_at(s, i + enc_nat(ps.len()).len(), enc_period_items(ps)),
        enc_periods(ps).len() == enc_nat(ps.len()).len() + enc_period_items(ps).len(),
{
    reveal_strlit(" ");
    lemma_lit_at_split(s, i, enc_nat(ps.len()), enc_period_items(ps));
    lemma_items_len(ps);
    let lc = enc_nat(ps.len()).len() as int;
    if ps.len() > 0 {
        lemma_items_first(ps);
        assert(s.subrange(lc + i, i + lc + enc_period_items(ps).len())[0] == s[i + lc]);
        assert(s[i + lc] == ' ');
    }
}

/// Where a marker list stands, its `k`-th marker stands after the text of
/// the first `k`, behind its separating space and ended by a non-digit.
proof fn lemma_periods_at_step(s: Seq<char>, i: int, ps: Seq<NotificationPeriod>, k: int)
    requires
        periods_at(s, i, ps),
        0 <= k < ps.len(),
    ensures
        ({
            let pos = i + enc_nat(ps.len()).len() + enc_period_items(ps.take(k)).len();
            lit_at(s, pos, " "@) && period_at(s, pos + 1, ps[k]) && enc_period_items(
                ps.take(k + 1),
            ).len() == enc_period_items(ps.take(k)).len() + 1 + enc_period(ps[k]).len()
        }),
{
    reveal_strlit(" ");
    lemma_periods_at_parts(s, i, ps);
    lemma_items_bridge(ps, k);
    let lc = enc_nat(ps.len()).len() as int;
    let a = enc_period_items(ps.take(k));
    let p = enc_period(ps[k]);
    let f = enc_period_items_from(ps, k + 1);
    let pos = i + lc + a.len();
    lemma_lit_at_split(s, i + lc, a, enc_period_items_from(ps, k));
    seq_assoc(" "@, p, f);
    assert(enc_period_items_from(ps, k) == " "@ + (p + f));
    lemma_lit_at_split(s, pos, " "@, p + f);
    lemma_lit_at_split(s, pos + 1, p, f);
    assert(s.subrange(pos, pos + 1)[0] == s[pos]);
    assert(s[pos] == ' ');
    // the character after the marker is a space or the list's end
    if k + 1 < ps.len() {
        assert(f == (" "@ + enc_period(ps[k + 1])) + enc_period_items_from(ps, k + 1 + 1));
        assert(f[0] == ' ');
        assert(s.subrange(pos + 1 + p.len(), pos + 1 + p.len() + f.len())[0] == s[pos + 1
            + p.len()]);
        assert(!is_digit_char(s[pos + 1 + p.len()]));
    } else {
        assert(f.len() == 0);
        assert(ps.take(k + 1) =~= ps);
        lemma_items_bridge(ps, k + 1);
        assert(enc_period_items(ps).len() == enc_period_items(ps.take(k + 1)).len());
        assert(ps.take(k + 1).drop_last() =~= ps.take(k));
        assert(ps.take(k + 1).last() == ps[k]);
        assert(enc_period_items(ps.take(k + 1)) == (a + " "@) + p);
        assert(pos + 1 + p.len() == i + enc_periods(ps).len());
        assert(nondigit_at(s, pos + 1 + p.len()));
    }
    assert(ps.take(k + 1).drop_last() =~= ps.take(k));
    assert(ps.take(k + 1).last() == ps[k]);
    assert(enc_period_items(ps.take(k + 1)) == (a + " "@) + p);
}

#[verifier::loop_isolation(false)]
#[verifier::rlimit(100)]
fn parse_periods(s: &str, i: usize) -> (r: Option<(Vec<NotificationPeriod>, usize)>)
    requires
        i <= s@.len(),
    ensures
        r matches Some(p) ==> i <= p.1 <= s@.len(),
        forall|ps: Seq<NotificationPeriod>|
            periods_at(s@, i as int, ps) ==> (r matches Some(q) && q.0@ == ps && q.1 as int == i
                + enc_periods(ps).len()),
{
    let n = s.unicode_len();
    let (count, j0) = match parse_nat(s, i) {
        Some(p) => p,
        None => {
            proof {
                assert forall|ps: Seq<NotificationPeriod>| !periods_at(s@, i as int, ps) by {
                    if periods_at(s@, i as int, ps) {
                        lemma_periods_at_parts(s@, i as int, ps);
                        lemma_nat_at_pin(s@, i as int, ps.len());
                    }
                }
            }
            return None;
        },
    };
    proof {
        assert forall|ps: Seq<NotificationPeriod>|
            periods_at(s@, i as int, ps) implies (count as nat == ps.len() && j0 as int == i
            + enc_nat(ps.len()).len()) by {
            lemma_periods_at_parts(s@, i as int, ps);
            lemma_nat_at_pin(s@, i as int, ps.len());
        }
    }
    let mut out: Vec<NotificationPeriod> = Vec::new();
    let mut j: usize = j0;
    let mut k: u64 = 0;
    proof {
        assert forall|ps: Seq<NotificationPeriod>|
            periods_at(s@, i as int, ps) implies (out@ == ps.take(0)
            && enc_period_items(ps.take(0)).len() == 0) by {
            assert(ps.take(0) =~= Seq::<NotificationPeriod>::empty());
            assert(out@ =~= ps.take(0));
        }
    }
    while k < count
        invariant
            i <= j <= s@.len(),
            k <= count,
            out@.len() == k,
            forall|ps: Seq<NotificationPeriod>|
                periods_at(s@, i as int, ps) ==> (count as nat == ps.len() && out@ == ps.take(
                    k as int,
                ) && j as int == i + enc_nat(ps.len()).len() + enc_period_items(
                    ps.take(k as int),
                ).len()),
        decreases count - k,
    {
        let j1 = match expect(s, j, " ") {
            Some(j1) => j1,
            None => {
                proof {
                    assert forall|ps: Seq<NotificationPeriod>| !periods_at(s@, i as int, ps) by {
                        if periods_at(s@, i as int, ps) {
                            reveal_strlit(" ");
                            lemma_periods_at_step(s@, i as int, ps, k as int);
                            assert(j as int == i + enc_nat(ps.len()).len() + enc_period_items(
                                ps.take(k as int),
                            ).len());
                            assert(lit_at(s@, j as int, " "@));
                        }
                    }
                }
                return None;
            },
        };
        match parse_period(s, j1) {
            Some((p, j2)) => {
                proof {
                    assert forall|ps: Seq<NotificationPeriod>|
                        periods_at(s@, i as int, ps) implies (p == ps[k as int] && out@.push(p)
                        == ps.take(k as int + 1) && j2 as int == i + enc_nat(ps.len()).len()
                        + enc_period_items(ps.take(k as int + 1)).len()) by {
                        reveal_strlit(" ");
                        lemma_periods_at_step(s@, i as int, ps, k as int);
                        assert(j as int == i + enc_nat(ps.len()).len() + enc_period_items(
                            ps.take(k as int),
                        ).len());
                        assert(lit_at(s@, j as int, " "@));
                        assert(j1 as int == j + 1);
                        assert(period_at(s@, j1 as int, ps[k as int]));
                        assert(p == ps[k as int]);
                        assert(j2 as int == j1 + enc_period(ps[k as int]).len());
                        assert(ps.take(k as int + 1) =~= ps.take(k as int).push(ps[k as int]));
                    }
                }
                out.push(p);
                j = j2;
                proof {
                    assert forall|ps: Seq<NotificationPeriod>|
                        periods_at(s@, i as int, ps) implies (count as nat == ps.len() && out@
                        == ps.take(k as int + 1) && j as int == i + enc_nat(ps.len()).len()
                        + enc_period_items(ps.take(k as int + 1)).len()) by {
                        assert(p == ps[k as int]);
                        assert(ps.take(k as int + 1) =~= ps.take(k as int).push(ps[k as int]));
                    }
                }
            },
            None => {
                proof {
                    assert forall|ps: Seq<NotificationPeriod>| !periods_at(s@, i as int, ps) by {
                        if periods_at(s@, i as int, ps) {
                            reveal_strlit(" ");
                            lemma_periods_at_step(s@, i as int, ps, k as int);
                            assert(j as int == i + enc_nat(ps.len()).len() + enc_period_items(
                                ps.take(k as int),
                            ).len());
                            assert(lit_at(s@, j as int, " "@));
                            assert(j1 as int == j + 1);
                            assert(period_at(s@, j1 as int, ps[k as int]));
                            assert(false);
                        }
                    }
                }
                return None;
            },
        }
        k += 1;
    }
    proof {
        assert forall|ps: Seq<NotificationPeriod>|
            periods_at(s@, i as int, ps) implies (out@ == ps && j as int == i + enc_periods(
            ps,
        ).len()) by {
            lemma_periods_at_parts(s@, i as int, ps);
            assert(ps.take(k as int) =~= ps);
        }
    }
    Some((out, j))
}

pub open spec fn session_at(s: Seq<char>, i: int, x: SessionModel) -> bool {
    lit_at(s, i, enc_session(x))
}

/// An encoded session standing at `i` splits into its fields.
proof fn lemma_session_at_parts(s: Seq<char>, i: int, x: SessionModel)
    requires
        session_at(s, i, x),
    ensures
        ({
            let o1 = i + 5;
            let o2 = o1 + enc_str(x.date).len();
            let o3 = o2 + 9;
            let o4 = o3 + enc_nat(x.minutes as nat).len();
            let o5 = o4 + 13;
            let o6 = o5 + enc_opt(x.description).len();
            lit_at(s, i, "date "@) && str_at(s, o1, x.date) && lit_at(s, o2, " minutes "@)
                && nat_at(s, o3, x.minutes as nat) && lit_at(s, o4, " description "@) && opt_at(
                s,
                o5,
                x.description,
            ) && lit_at(s, o6, "\n"@) && i + enc_session(x).len() == o6 + 1
        }),
{
    reveal_strlit("date ");
    reveal_strlit(" minutes ");
    reveal_strlit(" description ");
    reveal_strlit("\n");
    let a = "date "@;
    let b = enc_str(x.date);
    let c = " minutes "@;
    let d = enc_nat(x.minutes as nat);
    let e = " description "@;
    let f = enc_opt(x.description);
    let g = "\n"@;
    lemma_lit_at_split(s, i, (((((a + b) + c) + d) + e) + f), g);
    lemma_lit_at_split(s, i, ((((a + b) + c) + d) + e), f);
    lemma_lit_at_split(s, i, (((a + b) + c) + d), e);
    lemma_lit_at_split(s, i, ((a + b) + c), d);
    lemma_lit_at_split(s, i, (a + b), c);
    lemma_lit_at_split(s, i, a, b);
    let o4 = i + 5 + b.len() + 9 + d.len();
    assert(s.subrange(o4, o4 + 13)[0] == s[o4]);
    assert(s[o4] == ' ');
}

#[verifier::rlimit(30)]
fn parse_session(s: &str, i: usize) -> (r: Option<(StudySession, usize)>)
    requires
        i <= s@.len(),
    ensures
        r matches Some(p) ==> i <= p.1 <= s@.len(),
        forall|x: SessionModel|
            session_at(s@, i as int, x) ==> (r matches Some(q) && q.0@ == x && q.1 as int == i
                + enc_session(x).len()),
{
    let j1 = match expect(s, i, "date ") {
        Some(j) => j,
        None => {
            proof {
                assert forall|x: SessionModel| !session_at(s@, i as int, x) by {
                    if session_at(s@, i as int, x) {
                        reveal_strlit("date ");
                        lemma_session_at_parts(s@, i as int, x);
                    }
                }
            }
            return None;
        },
    };
    let (date, j2) = match parse_str_val(s, j1) {
        Some(p) => p,
        None => {
            proof {
                assert forall|x: SessionModel| !session_at(s@, i as int, x) by {
                    if session_at(s@, i as int, x) {
                        reveal_strlit("date ");
                        lemma_session_at_parts(s@, i as int, x);
                        assert(j1 as int == i + 5);
                        assert(str_at(s@, j1 as int, x.date));
                    }
                }
            }
            return None;
        },
    };
    let j3 = match expect(s, j2, " minutes ") {
        Some(j) => j,
        None => {
            proof {
                assert forall|x: SessionModel| !session_at(s@, i as int, x) by {
                    if session_at(s@, i as int, x) {
                        reveal_strlit("date ");
                        reveal_strlit(" minutes ");
                        lemma_session_at_parts(s@, i as int, x);
                        assert(j1 as int == i + 5);
                        assert(str_at(s@, j1 as int, x.date));
                        assert(j2 as int == i + 5 + enc_str(x.date).len());
                        assert(lit_at(s@, j2 as int, " minutes "@));
                    }
                }
            }
            return None;
        },
    };
    let (minutes, j4) = match parse_nat(s, j3) {
        Some(p) => p,
        None => {
            proof {
                assert forall|x: SessionModel| !session_at(s@, i as int, x) by {
                    if session_at(s@, i as int, x) {
                        reveal_strlit("date ");
                        reveal_strlit(" minutes ");
                        lemma_session_at_parts(s@, i as int, x);
                        assert(j1 as int == i + 5);
                        assert(str_at(s@, j1 as int, x.date));
                        assert(j2 as int == i + 5 + enc_str(x.date).len());
                        assert(j3 as int == j2 + 9);
                        assert(nat_at(s@, j3 as int, x.minutes as nat));
                        lemma_nat_at_pin(s@, j3 as int, x.minutes as nat);
                    }
                }
            }
            return None;
        },
    };
    let j5 = match expect(s, j4, " description ") {
        Some(j) => j,
        None => {
            proof {
                assert forall|x: SessionModel| !session_at(s@, i as int, x) by {
                    if session_at(s@, i as int, x) {
                        reveal_strlit("date ");
                        reveal_strlit(" minutes ");
                        reveal_strlit(" description ");
                        lemma_session_at_parts(s@, i as int, x);
                        assert(j1 as int == i + 5);
                        assert(str_at(s@, j1 as int, x.date));
                        assert(j2 as int == i + 5 + enc_str(x.date).len());
                        assert(j3 as int == j2 + 9);
                        assert(nat_at(s@, j3 as int, x.minutes as nat));
                        lemma_nat_at_pin(s@, j3 as int, x.minutes as nat);
                        assert(j4 as int == j3 + enc_nat(x.minutes as nat).len());
                        assert(lit_at(s@, j4 as int, " description "@));
                    }
                }
            }
            return None;
        },
    };
    let (description, j6) = match parse_opt_val(s, j5) {
        Some(p) => p,
        None => {
            proof {
                assert forall|x: SessionModel| !session_at(s@, i as int, x) by {
                    if session_at(s@, i as int, x) {
                        reveal_strlit("date ");
                        reveal_strlit(" minutes ");
                        reveal_strlit(" description ");
                        lemma_session_at_parts(s@, i as int, x);
                        assert(j1 as int == i + 5);
                        assert(str_at(s@, j1 as int, x.date));
                        assert(j2 as int == i + 5 + enc_str(x.date).len());
                        assert(j3 as int == j2 + 9);
                        assert(nat_at(s@, j3 as int, x.minutes as nat));
                        lemma_nat_at_pin(s@, j3 as int, x.minutes as nat);
                        assert(j4 as int == j3 + enc_nat(x.minutes as nat).len());
                        assert(j5 as int == j4 + 13);
                        assert(opt_at(s@, j5 as int, x.description));
                    }
                }
            }
            return None;
        },
    };
    let j7 = match expect(s, j6, "\n") {
        Some(j) => j,
        None => {
            proof {
                assert forall|x: SessionModel| !session_at(s@, i as int, x) by {
                    if session_at(s@, i as int, x) {
                        reveal_strlit("date ");
                        reveal_strlit(" minutes ");
                        reveal_strlit(" description ");
                        reveal_strlit("\n");
                        lemma_session_at_parts(s@, i as int, x);
                        assert(j1 as int == i + 5);
                        assert(str_at(s@, j1 as int, x.date));
                        assert(j2 as int == i + 5 + enc_str(x.date).len());
                        assert(j3 as int == j2 + 9);
                        assert(nat_at(s@, j3 as int, x.minutes as nat));
                        lemma_nat_at_pin(s@, j3 as int, x.minutes as nat);
                        assert(j4 as int == j3 + enc_nat(x.minutes as nat).len());
                        assert(j5 as int == j4 + 13);
                        assert(opt_at(s@, j5 as int, x.description));
                        assert(j6 as int == j5 + enc_opt(x.description).len());
                        assert(lit_at(s@, j6 as int, "\n"@));
                    }
                }
            }
            return None;
        },
    };
    proof {
        assert forall|x: SessionModel|
            session_at(s@, i as int, x) implies (StudySession {
            date: date,
            minutes: minutes,
            description: description,
        }@ == x && j7 as int == i + enc_session(x).len()) by {
            reveal_strlit("date ");
            reveal_strlit(" minutes ");
            reveal_strlit(" description ");
            reveal_strlit("\n");
            lemma_session_at_parts(s@, i as int, x);
            assert(j1 as int == i + 5);
            assert(str_at(s@, j1 as int, x.date));
            assert(date@ == x.date);
            assert(j2 as int == i + 5 + enc_str(x.date).len());
            assert(j3 as int == j2 + 9);
            assert(nat_at(s@, j3 as int, x.minutes as nat));
            lemma_nat_at_pin(s@, j3 as int, x.minutes as nat);
            assert(minutes == x.minutes);
            assert(j4 as int == j3 + enc_nat(x.minutes as nat).len());
            assert(j5 as int == j4 + 13);
            assert(opt_at(s@, j5 as int, x.description));
            assert(crate::store::opt_view(description) == x.description);
            assert(j6 as int == j5 + enc_opt(x.description).len());
            assert(lit_at(s@, j6 as int, "\n"@));
            assert(j7 as int == j6 + 1);
        }
    }
    Some((StudySession { date, minutes, description }, j7))
}

pub open spec fn todo_at(s: Seq<char>, i: int, x: TodoModel) -> bool {
    lit_at(s, i, enc_todo(x))
}

/// An encoded todo standing at `i` splits into its fields.
proof fn lemma_todo_at_parts(s: Seq<char>, i: int, x: TodoModel)
    requires
        todo_at(s, i, x),
    ensures
        ({
            let o1 = i + 3;
            let o2 = o1 + enc_nat(x.id as nat).len();
            let o3 = o2 + 6;
            let o4 = o3 + enc_str(x.text).len();
            let o5 = o4 + 11;
            let o6 = o5 + enc_bool(x.completed).len();
            let o7 = o6 + 12;
            let o8 = o7 + enc_str(x.created_at).len();
            lit_at(s, i, "id "@) && nat_at(s, o1, x.id as nat) && lit_at(s, o2, " text "@) && str_at(s, o3, x.text) && lit_at(s, o4, " completed "@) && bool_at(s, o5, x.completed) && lit_at(s, o6, " created_at "@) && str_at(s, o7, x.created_at) && lit_at(s, o8, "\n"@) && i + enc_todo(x).len() == o8 + 1
        }),
{
    reveal_strlit("id ");
    reveal_strlit(" text ");
    reveal_strlit(" completed ");
    reveal_strlit(" created_at ");
    reveal_strlit("\n");
    let p0 = "id "@;
    let p1 = enc_nat(x.id as nat);
    let p2 = " text "@;
    let p3 = enc_str(x.text);
    let p4 = " completed "@;
    let p5 = enc_bool(x.completed);
    let p6 = " created_at "@;
    let p7 = enc_str(x.created_at);
    let p8 = "\n"@;
    lemma_lit_at_split(s, i, (((((((p0 + p1) + p2) + p3) + p4) + p5) + p6) + p7), p8);
    lemma_lit_at_split(s, i, ((((((p0 + p1) + p2) + p3) + p4) + p5) + p6), p7);
    lemma_lit_at_split(s, i, (((((p0 + p1) + p2) + p3) + p4) + p5), p6);
    lemma_lit_at_split(s, i, ((((p0 + p1) + p2) + p3) + p4), p5);
    lemma_lit_at_split(s, i, (((p0 + p1) + p2) + p3), p4);
    lemma_lit_at_split(s, i, ((p0 + p1) + p2), p3);
    lemma_lit_at_split(s, i, (p0 + p1), p2);
    lemma_lit_at_split(s, i, p0, p1);
    let o1x = i + 3;
    let o2x = o1x + enc_nat(x.id as nat).len();
    let o3x = o2x + 6;
    let o4x = o3x + enc_str(x.text).len();
    let o5x = o4x + 11;
    let o6x = o5x + enc_bool(x.completed).len();
    let o7x = o6x + 12;
    let o8x = o7x + enc_str(x.created_at).len();
    assert(s.subrange(o2x, o2x + 6)[0] == s[o2x]);
    assert(s[o2x] == ' ');
}

#[verifier::rlimit(100)]
fn parse_todo(s: &str, i: usize) -> (r: Option<(Todo, usize)>)
    requires
        i <= s@.len(),
    ensures
        r matches Some(p) ==> i <= p.1 <= s@.len(),
        forall|x: TodoModel|
            todo_at(s@, i as int, x) ==> (r matches Some(q) && q.0@ == x && q.1 as int == i
                + enc_todo(x).len()),
{
    let j1 = match expect(s, i, "id ") {
        Some(j) => j,
        None => {
            proof {
                assert forall|x: TodoModel| !todo_at(s@, i as int, x) by {
                    if todo_at(s@, i as int, x) {
                        reveal_strlit("id ");
                        reveal_strlit(" text ");
                        reveal_strlit(" completed ");
                        reveal_strlit(" created_at ");
                        reveal_strlit("\n");
                        lemma_todo_at_parts(s@, i as int, x);
                        assert(lit_at(s@, i as int, "id "@));
                    }
                }
            }
            return None;
        },
    };
    let (id, j2) = match parse_nat(s, j1) {
        Some(p) => p,
        None => {
            proof {
                assert forall|x: TodoModel| !todo_at(s@, i as int, x) by {
                    if todo_at(s@, i as int, x) {
                        reveal_strlit("id ");
                        reveal_strlit(" text ");
                        reveal_strlit(" completed ");
                        reveal_strlit(" created_at ");
                        reveal_strlit("\n");
                        lemma_todo_at_parts(s@, i as int, x);
                        assert(lit_at(s@, i as int, "id "@));
                        assert(j1 as int == i as int + 3);
                        assert(nat_at(s@, j1 as int, x.id as nat));
                        lemma_nat_at_pin(s@, j1 as int, x.id as nat);
                    }
                }
            }
            return None;
        },
    };
    let j3 = match expect(s, j2, " text ") {
        Some(j) => j,
        None => {
            proof {
                assert forall|x: TodoModel| !todo_at(s@, i as int, x) by {
                    if todo_at(s@, i as int, x) {
                        reveal_strlit("id ");
                        reveal_strlit(" text ");
                        reveal_strlit(" completed ");
                        reveal_strlit(" created_at ");
                        reveal_strlit("\n");
                        lemma_todo_at_parts(s@, i as int, x);
                        assert(lit_at(s@, i as int, "id "@));
                        assert(j1 as int == i as int + 3);
                        assert(nat_at(s@, j1 as int, x.id as nat));
                        lemma_nat_at_pin(s@, j1 as int, x.id as nat);
                        assert(j2 as int == j1 as int + enc_nat(x.id as nat).len());
                        assert(lit_at(s@, j2 as int, " text "@));
                    }
                }
            }
            return None;
        },
    };
    let (text, j4) = match parse_str_val(s, j3) {
        Some(p) => p,
        None => {
            proof {
                assert forall|x: TodoModel| !todo_at(s@, i as int, x) by {
                    if todo_at(s@, i as int, x) {
                        reveal_strlit("id ");
                        reveal_strlit(" text ");
                        reveal_strlit(" completed ");
                        reveal_strlit(" created_at ");
                        reveal_strlit("\n");
                        lemma_todo_at_parts(s@, i as int, x);
                        assert(lit_at(s@, i as int, "id "@));
                        assert(j1 as int == i as int + 3);
                        assert(nat_at(s@, j1 as int, x.id as nat));
                        lemma_nat_at_pin(s@, j1 as int, x.id as nat);
                        assert(j2 as int == j1 as int + enc_nat(x.id as nat).len());
                        assert(lit_at(s@, j2 as int, " text "@));
                        assert(j3 as int == j2 as int + 6);
                        assert(str_at(s@, j3 as int, x.text));
                    }
                }
            }
            return None;
        },
    };
    let j5 = match expect(s, j4, " completed ") {
        Some(j) => j,
        None => {
            proof {
                assert forall|x: TodoModel| !todo_at(s@, i as int, x) by {
                    if todo_at(s@, i as int, x) {
                        reveal_strlit("id ");
                        reveal_strlit(" text ");
                        reveal_strlit(" completed ");
                        reveal_strlit(" created_at ");
                        reveal_strlit("\n");
                        lemma_todo_at_parts(s@, i as int, x);
                        assert(lit_at(s@, i as int, "id "@));
                        assert(j1 as int == i as int + 3);
                        assert(nat_at(s@, j1 as int, x.id as nat));
                        lemma_nat_at_pin(s@, j1 as int, x.id as nat);
                        assert(j2 as int == j1 as int + enc_nat(x.id as nat).len());
                        assert(lit_at(s@, j2 as int, " text "@));
                        assert(j3 as int == j2 as int + 6);
                        assert(str_at(s@, j3 as int, x.text));
                        assert(j4 as int == j3 as int + enc_str(x.text).len());
                        assert(lit_at(s@, j4 as int, " completed "@));
                    }
                }
            }
            return None;
        },
    };
    let (completed, j6) = match parse_bool(s, j5) {
        Some(p) => p,
        None => {
            proof {
                assert forall|x: TodoModel| !todo_at(s@, i as int, x) by {
                    if todo_at(s@, i as int, x) {
                        reveal_strlit("id ");
                        reveal_strlit(" text ");
                        reveal_strlit(" completed ");
                        reveal_strlit(" created_at ");
                        reveal_strlit("\n");
                        lemma_todo_at_parts(s@, i as int, x);
                        assert(lit_at(s@, i as int, "id "@));
                        assert(j1 as int == i as int + 3);
                        assert(nat_at(s@, j1 as int, x.id as nat));
                        lemma_nat_at_pin(s@, j1 as int, x.id as nat);
                        assert(j2 as int == j1 as int + enc_nat(x.id as nat).len());
                        assert(lit_at(s@, j2 as int, " text "@));
                        assert(j3 as int == j2 as int + 6);
                        assert(str_at(s@, j3 as int, x.text));
                        assert(j4 as int == j3 as int + enc_str(x.text).len());
                        assert(lit_at(s@, j4 as int, " completed "@));
                        assert(j5 as int == j4 as int + 11);
                        assert(bool_at(s@, j5 as int, x.completed));
                    }
                }
            }
            return None;
        },
    };
    let j7 = match expect(s, j6, " created_at ") {
        Some(j) => j,
        None => {
            proof {
                assert forall|x: TodoModel| !todo_at(s@, i as int, x) by {
                    if todo_at(s@, i as int, x) {
                        reveal_strlit("id ");
                        reveal_strlit(" text ");
                        reveal_strlit(" completed ");
                        reveal_strlit(" created_at ");
                        reveal_strlit("\n");
                        lemma_todo_at_parts(s@, i as int, x);
                        assert(lit_at(s@, i as int, "id "@));
                        assert(j1 as int == i as int + 3);
                        assert(nat_at(s@, j1 as int, x.id as nat));
                        lemma_nat_at_pin(s@, j1 as int, x.id as nat);
                        assert(j2 as int == j1 as int + enc_nat(x.id as nat).len());
                        assert(lit_at(s@, j2 as int, " text "@));
                        assert(j3 as int == j2 as int + 6);
                        assert(str_at(s@, j3 as int, x.text));
                        assert(j4 as int == j3 as int + enc_str(x.text).len());
                        assert(lit_at(s@, j4 as int, " completed "@));
                        assert(j5 as int == j4 as int + 11);
                        assert(bool_at(s@, j5 as int, x.completed));
                        assert(j6 as int == j5 as int + enc_bool(x.completed).len());
                        assert(lit_at(s@, j6 as int, " created_at "@));
                    }
                }
            }
            return None;
        },
    };
    let (created_at, j8) = match parse_str_val(s, j7) {
        Some(p) => p,
        None => {
            proof {
                assert forall|x: TodoModel| !todo_at(s@, i as int, x) by {
                    if todo_at(s@, i as int, x) {
                        reveal_strlit("id ");
                        reveal_strlit(" text ");
                        reveal_strlit(" completed ");
                        reveal_strlit(" created_at ");
                        reveal_strlit("\n");
                        lemma_todo_at_parts(s@, i as int, x);
                        assert(lit_at(s@, i as int, "id "@));
                        assert(j1 as int == i as int + 3);
                        assert(nat_at(s@, j1 as int, x.id as nat));
                        lemma_nat_at_pin(s@, j1 as int, x.id as nat);
                        assert(j2 as int == j1 as int + enc_nat(x.id as nat).len());
                        assert(lit_at(s@, j2 as int, " text "@));
                        assert(j3 as int == j2 as int + 6);
                        assert(str_at(s@, j3 as int, x.text));
                        assert(j4 as int == j3 as int + enc_str(x.text).len());
                        assert(lit_at(s@, j4 as int, " completed "@));
                        assert(j5 as int == j4 as int + 11);
                        assert(bool_at(s@, j5 as int, x.completed));
                        assert(j6 as int == j5 as int + enc_bool(x.completed).len());
                        assert(lit_at(s@, j6 as int, " created_at "@));
                        assert(j7 as int == j6 as int + 12);
                        assert(str_at(s@, j7 as int, x.created_at));
                    }
                }
            }
            return None;
        },
    };
    let j9 = match expect(s, j8, "\n") {
        Some(j) => j,
        None => {
            proof {
                assert forall|x: TodoModel| !todo_at(s@, i as int, x) by {
                    if todo_at(s@, i as int, x) {
                        reveal_strlit("id ");
                        reveal_strlit(" text ");
                        reveal_strlit(" completed ");
                        reveal_strlit(" created_at ");
                        reveal_strlit("\n");
                        lemma_todo_at_parts(s@, i as int, x);
                        assert(lit_at(s@, i as int, "id "@));
                        assert(j1 as int == i as int + 3);
                        assert(nat_at(s@, j1 as int, x.id as nat));
                        lemma_nat_at_pin(s@, j1 as int, x.id as nat);
                        assert(j2 as int == j1 as int + enc_nat(x.id as nat).len());
                        assert(lit_at(s@, j2 as int, " text "@));
                        assert(j3 as int == j2 as int + 6);
                        assert(str_at(s@, j3 as int, x.text));
                        assert(j4 as int == j3 as int + enc_str(x.text).len());
                        assert(lit_at(s@, j4 as int, " completed "@));
                        assert(j5 as int == j4 as int + 11);
                        assert(bool_at(s@, j5 as int, x.completed));
                        assert(j6 as int == j5 as int + enc_bool(x.completed).len());
                        assert(lit_at(s@, j6 as int, " created_at "@));
                        assert(j7 as int == j6 as int + 12);
                        assert(str_at(s@, j7 as int, x.created_at));
                        assert(j8 as int == j7 as int + enc_str(x.created_at).len());
                        assert(lit_at(s@, j8 as int, "\n"@));
                    }
                }
            }
            return None;
        },
    };
    proof {
        assert forall|x: TodoModel|
            todo_at(s@, i as int, x) implies (Todo { id, text, completed, created_at }@ == x && j9 as int == i + enc_todo(x).len()) by {
                reveal_strlit("id ");
                reveal_strlit(" text ");
                reveal_strlit(" completed ");
                reveal_strlit(" created_at ");
                reveal_strlit("\n");
                lemma_todo_at_parts(s@, i as int, x);
                assert(lit_at(s@, i as int, "id "@));
                assert(j1 as int == i as int + 3);
                assert(nat_at(s@, j1 as int, x.id as nat));
                lemma_nat_at_pin(s@, j1 as int, x.id as nat);
                assert(id == x.id);
                assert(j2 as int == j1 as int + enc_nat(x.id as nat).len());
                assert(lit_at(s@, j2 as int, " text "@));
                assert(j3 as int == j2 as int + 6);
                assert(str_at(s@, j3 as int, x.text));
                assert(text@ == x.text);
                assert(j4 as int == j3 as int + enc_str(x.text).len());
                assert(lit_at(s@, j4 as int, " completed "@));
                assert(j5 as int == j4 as int + 11);
                assert(bool_at(s@, j5 as int, x.completed));
                assert(completed == x.completed);
                assert(j6 as int == j5 as int + enc_bool(x.completed).len());
                assert(lit_at(s@, j6 as int, " created_at "@));
                assert(j7 as int == j6 as int + 12);
                assert(str_at(s@, j7 as int, x.created_at));
                assert(created_at@ == x.created_at);
                assert(j8 as int == j7 as int + enc_str(x.created_at).len());
                assert(lit_at(s@, j8 as int, "\n"@));
                assert(j9 as int == j8 as int + 1);
        }
    }
    Some((Todo { id, text, completed, created_at }, j9))
}

pub open spec fn reminder_at(s: Seq<char>, i: int, x: ReminderModel) -> bool {
    lit_at(s, i, enc_reminder(x))
}

/// An encoded reminder standing at `i` splits into its fields.
proof fn lemma_reminder_at_parts(s: Seq<char>, i: int, x: ReminderModel)
    requires
        reminder_at(s, i, x),
    ensures
        ({
            let o1 = i + 3;
            let o2 = o1 + enc_nat(x.id as nat).len();
            let o3 = o2 + 7;
            let o4 = o3 + enc_str(x.title).len();
            let o5 = o4 + 13;
            let o6 = o5 + enc_opt(x.description).len();
            let o7 = o6 + 10;
            let o8 = o7 + enc_str(x.due_date).len();
            let o9 = o8 + 12;
            let o10 = o9 + enc_str(x.created_at).len();
            let o11 = o10 + 22;
            let o12 = o11 + enc_periods(x.notification_periods).len();
            let o13 = o12 + 14;
            let o14 = o13 + enc_bool(x.is_completed).len();
            lit_at(s, i, "id "@) && nat_at(s, o1, x.id as nat) && lit_at(s, o2, " title "@) && str_at(s, o3, x.title) && lit_at(s, o4, " description "@) && opt_at(s, o5, x.description) && lit_at(s, o6, " due_date "@) && str_at(s, o7, x.due_date) && lit_at(s, o8, " created_at "@) && str_at(s, o9, x.created_at) && lit_at(s, o10, " notification_periods "@) && periods_at(s, o11, x.notification_periods) && lit_at(s, o12, " is_completed "@) && bool_at(s, o13, x.is_completed) && lit_at(s, o14, "\n"@) && i + enc_reminder(x).len() == o14 + 1
        }),
{
    reveal_strlit("id ");
    reveal_strlit(" title ");
    reveal_strlit(" description ");
    reveal_strlit(" due_date ");
    reveal_strlit(" created_at ");
    reveal_strlit(" notification_periods ");
    reveal_strlit(" is_completed ");
    reveal_strlit("\n");
    let p0 = "id "@;
    let p1 = enc_nat(x.id as nat);
    let p2 = " title "@;
    let p3 = enc_str(x.title);
    let p4 = " description "@;
    let p5 = enc_opt(x.description);
    let p6 = " due_date "@;
    let p7 = enc_str(x.due_date);
    let p8 = " created_at "@;
    let p9 = enc_str(x.created_at);
    let p10 = " notification_periods "@;
    let p11 = enc_periods(x.notification_periods);
    let p12 = " is_completed "@;
    let p13 = enc_bool(x.is_completed);
    let p14 = "\n"@;
    lemma_lit_at_split(s, i, (((((((((((((p0 + p1) + p2) + p3) + p4) + p5) + p6) + p7) + p8) + p9) + p10) + p11) + p12) + p13), p14);
    lemma_lit_at_split(s, i, ((((((((((((p0 + p1) + p2) + p3) + p4) + p5) + p6) + p7) + p8) + p9) + p10) + p11) + p12), p13);
    lemma_lit_at_split(s, i, (((((((((((p0 + p1) + p2) + p3) + p4) + p5) + p6) + p7) + p8) + p9) + p10) + p11), p12);
    lemma_lit_at_split(s, i, ((((((((((p0 + p1) + p2) + p3) + p4) + p5) + p6) + p7) + p8) + p9) + p10), p11);
    lemma_lit_at_split(s, i, (((((((((p0 + p1) + p2) + p3) + p4) + p5) + p6) + p7) + p8) + p9), p10);
    lemma_lit_at_split(s, i, ((((((((p0 + p1) + p2) + p3) + p4) + p5) + p6) + p7) + p8), p9);
    lemma_lit_at_split(s, i, (((((((p0 + p1) + p2) + p3) + p4) + p5) + p6) + p7), p8);
    lemma_lit_at_split(s, i, ((((((p0 + p1) + p2) + p3) + p4) + p5) + p6), p7);
    lemma_lit_at_split(s, i, (((((p0 + p1) + p2) + p3) + p4) + p5), p6);
    lemma_lit_at_split(s, i, ((((p0 + p1) + p2) + p3) + p4), p5);
    lemma_lit_at_split(s, i, (((p0 + p1) + p2) + p3), p4);
    lemma_lit_at_split(s, i, ((p0 + p1) + p2), p3);
    lemma_lit_at_split(s, i, (p0 + p1), p2);
    lemma_lit_at_split(s, i, p0, p1);
    let o1x = i + 3;
    let o2x = o1x + enc_nat(x.id as nat).len();
    let o3x = o2x + 7;
    let o4x = o3x + enc_str(x.title).len();
    let o5x = o4x + 13;
    let o6x = o5x + enc_opt(x.description).len();
    let o7x = o6x + 10;
    let o8x = o7x + enc_str(x.due_date).len();
    let o9x = o8x + 12;
    let o10x = o9x + enc_str(x.created_at).len();
    let o11x = o10x + 22;
    let o12x = o11x + enc_periods(x.notification_periods).len();
    let o13x = o12x + 14;
    let o14x = o13x + enc_bool(x.is_completed).len();
    assert(s.subrange(o2x, o2x + 7)[0] == s[o2x]);
    assert(s[o2x] == ' ');
    assert(s.subrange(o12x, o12x + 14)[0] == s[o12x]);
    assert(s[o12x] == ' ');
}

#[verifier::rlimit(100)]
fn parse_reminder(s: &str, i: usize) -> (r: Option<(Reminder, usize)>)
    requires
        i <= s@.len(),
    ensures
        r matches Some(p) ==> i <= p.1 <= s@.len(),
        forall|x: ReminderModel|
            reminder_at(s@, i as int, x) ==> (r matches Some(q) && q.0@ == x && q.1 as int == i
                + enc_reminder(x).len()),
{
    let j1 = match expect(s, i, "id ") {
        Some(j) => j,
        None => {
            proof {
                assert forall|x: ReminderModel| !reminder_at(s@, i as int, x) by {
                    if reminder_at(s@, i as int, x) {
                        reveal_strlit("id ");
                        reveal_strlit(" title ");
                        reveal_strlit(" description ");
                        reveal_strlit(" due_date ");
                        reveal_strlit(" created_at ");
                        reveal_strlit(" notification_periods ");
                        reveal_strlit(" is_completed ");
                        reveal_strlit("\n");
                        lemma_reminder_at_parts(s@, i as int, x);
                        assert(lit_at(s@, i as int, "id "@));
                    }
                }
            }
            return None;
        },
    };
    let (id, j2) = match parse_nat(s, j1) {
        Some(p) => p,
        None => {
            proof {
                assert forall|x: ReminderModel| !reminder_at(s@, i as int, x) by {
                    if reminder_at(s@, i as int, x) {
                        reveal_strlit("id ");
                        reveal_strlit(" title ");
                        reveal_strlit(" description ");
                        reveal_strlit(" due_date ");
                        reveal_strlit(" created_at ");
                        reveal_strlit(" notification_periods ");
                        reveal_strlit(" is_completed ");
                        reveal_strlit("\n");
                        lemma_reminder_at_parts(s@, i as int, x);
                        assert(lit_at(s@, i as int, "id "@));
                        assert(j1 as int == i as int + 3);
                        assert(nat_at(s@, j1 as int, x.id as nat));
                        lemma_nat_at_pin(s@, j1 as int, x.id as nat);
                    }
                }
            }
            return None;
        },
    };
    let j3 = match expect(s, j2, " title ") {
        Some(j) => j,
        None => {
            proof {
                assert forall|x: ReminderModel| !reminder_at(s@, i as int, x) by {
                    if reminder_at(s@, i as int, x) {
                        reveal_strlit("id ");
                        reveal_strlit(" title ");
                        reveal_strlit(" description ");
                        reveal_strlit(" due_date ");
                        reveal_strlit(" created_at ");
                        reveal_strlit(" notification_periods ");
                        reveal_strlit(" is_completed ");
                        reveal_strlit("\n");
                        lemma_reminder_at_parts(s@, i as int, x);
                        assert(lit_at(s@, i as int, "id "@));
                        assert(j1 as int == i as int + 3);
                        assert(nat_at(s@, j1 as int, x.id as nat));
                        lemma_nat_at_pin(s@, j1 as int, x.id as nat);
                        assert(j2 as int == j1 as int + enc_nat(x.id as nat).len());
                        assert(lit_at(s@, j2 as int, " title "@));
                    }
                }
            }
            return None;
        },
    };
    let (title, j4) = match parse_str_val(s, j3) {
        Some(p) => p,
        None => {
            proof {
                assert forall|x: ReminderModel| !reminder_at(s@, i as int, x) by {
                    if reminder_at(s@, i as int, x) {
                        reveal_strlit("id ");
                        reveal_strlit(" title ");
                        reveal_strlit(" description ");
                        reveal_strlit(" due_date ");
                        reveal_strlit(" created_at ");
                        reveal_strlit(" notification_periods ");
                        reveal_strlit(" is_completed ");
                        reveal_strlit("\n");
                        lemma_reminder_at_parts(s@, i as int, x);
                        assert(lit_at(s@, i as int, "id "@));
                        assert(j1 as int == i as int + 3);
                        assert(nat_at(s@, j1 as int, x.id as nat));
                        lemma_nat_at_pin(s@, j1 as int, x.id as nat);
                        assert(j2 as int == j1 as int + enc_nat(x.id as nat).len());
                        assert(lit_at(s@, j2 as int, " title "@));
                        assert(j3 as int == j2 as int + 7);
                        assert(str_at(s@, j3 as int, x.title));
                    }
                }
            }
            return None;
        },
    };
    let j5 = match expect(s, j4, " description ") {
        Some(j) => j,
        None => {
            proof {
                assert forall|x: ReminderModel| !reminder_at(s@, i as int, x) by {
                    if reminder_at(s@, i as int, x) {
                        reveal_strlit("id ");
                        reveal_strlit(" title ");
                        reveal_strlit(" description ");
                        reveal_strlit(" due_date ");
                        reveal_strlit(" created_at ");
                        reveal_strlit(" notification_periods ");
                        reveal_strlit(" is_completed ");
                        reveal_strlit("\n");
                        lemma_reminder_at_parts(s@, i as int, x);
                        assert(lit_at(s@, i as int, "id "@));
                        assert(j1 as int == i as int + 3);
                        assert(nat_at(s@, j1 as int, x.id as nat));
                        lemma_nat_at_pin(s@, j1 as int, x.id as nat);
                        assert(j2 as int == j1 as int + enc_nat(x.id as nat).len());
                        assert(lit_at(s@, j2 as int, " title "@));
                        assert(j3 as int == j2 as int + 7);
                        assert(str_at(s@, j3 as int, x.title));
                        assert(j4 as int == j3 as int + enc_str(x.title).len());
                        assert(lit_at(s@, j4 as int, " description "@));
                    }
                }
            }
            return None;
        },
    };
    let (description, j6) = match parse_opt_val(s, j5) {
        Some(p) => p,
        None => {
            proof {
                assert forall|x: ReminderModel| !reminder_at(s@, i as int, x) by {
                    if reminder_at(s@, i as int, x) {
                        reveal_strlit("id ");
                        reveal_strlit(" title ");
                        reveal_strlit(" description ");
                        reveal_strlit(" due_date ");
                        reveal_strlit(" created_at ");
                        reveal_strlit(" notification_periods ");
                        reveal_strlit(" is_completed ");
                        reveal_strlit("\n");
                        lemma_reminder_at_parts(s@, i as int, x);
                        assert(lit_at(s@, i as int, "id "@));
                        assert(j1 as int == i as int + 3);
                        assert(nat_at(s@, j1 as int, x.id as nat));
                        lemma_nat_at_pin(s@, j1 as int, x.id as nat);
                        assert(j2 as int == j1 as int + enc_nat(x.id as nat).len());
                        assert(lit_at(s@, j2 as int, " title "@));
                        assert(j3 as int == j2 as int + 7);
                        assert(str_at(s@, j3 as int, x.title));
                        assert(j4 as int == j3 as int + enc_str(x.title).len());
                        assert(lit_at(s@, j4 as int, " description "@));
                        assert(j5 as int == j4 as int + 13);
                        assert(opt_at(s@, j5 as int, x.description));
                    }
                }
            }
            return None;
        },
    };
    let j7 = match expect(s, j6, " due_date ") {
        Some(j) => j,
        None => {
            proof {
                assert forall|x: ReminderModel| !reminder_at(s@, i as int, x) by {
                    if reminder_at(s@, i as int, x) {
                        reveal_strlit("id ");
                        reveal_strlit(" title ");
                        reveal_strlit(" description ");
                        reveal_strlit(" due_date ");
                        reveal_strlit(" created_at ");
                        reveal_strlit(" notification_periods ");
                        reveal_strlit(" is_completed ");
                        reveal_strlit("\n");
                        lemma_reminder_at_parts(s@, i as int, x);
                        assert(lit_at(s@, i as int, "id "@));
                        assert(j1 as int == i as int + 3);
                        assert(nat_at(s@, j1 as int, x.id as nat));
                        lemma_nat_at_pin(s@, j1 as int, x.id as nat);
                        assert(j2 as int == j1 as int + enc_nat(x.id as nat).len());
                        assert(lit_at(s@, j2 as int, " title "@));
                        assert(j3 as int == j2 as int + 7);
                        assert(str_at(s@, j3 as int, x.title));
                        assert(j4 as int == j3 as int + enc_str(x.title).len());
                        assert(lit_at(s@, j4 as int, " description "@));
                        assert(j5 as int == j4 as int + 13);
                        assert(opt_at(s@, j5 as int, x.description));
                        assert(j6 as int == j5 as int + enc_opt(x.description).len());
                        assert(lit_at(s@, j6 as int, " due_date "@));
                    }
                }
            }
            return None;
        },
    };
    let (due_date, j8) = match parse_str_val(s, j7) {
        Some(p) => p,
        None => {
            proof {
                assert forall|x: ReminderModel| !reminder_at(s@, i as int, x) by {
                    if reminder_at(s@, i as int, x) {
                        reveal_strlit("id ");
                        reveal_strlit(" title ");
                        reveal_strlit(" description ");
                        reveal_strlit(" due_date ");
                        reveal_strlit(" created_at ");
                        reveal_strlit(" notification_periods ");
                        reveal_strlit(" is_completed ");
                        reveal_strlit("\n");
                        lemma_reminder_at_parts(s@, i as int, x);
                        assert(lit_at(s@, i as int, "id "@));
                        assert(j1 as int == i as int + 3);
                        assert(nat_at(s@, j1 as int, x.id as nat));
                        lemma_nat_at_pin(s@, j1 as int, x.id as nat);
                        assert(j2 as int == j1 as int + enc_nat(x.id as nat).len());
                        assert(lit_at(s@, j2 as int, " title "@));
                        assert(j3 as int == j2 as int + 7);
                        assert(str_at(s@, j3 as int, x.title));
                        assert(j4 as int == j3 as int + enc_str(x.title).len());
                        assert(lit_at(s@, j4 as int, " description "@));
                        assert(j5 as int == j4 as int + 13);
                        assert(opt_at(s@, j5 as int, x.description));
                        assert(j6 as int == j5 as int + enc_opt(x.description).len());
                        assert(lit_at(s@, j6 as int, " due_date "@));
                        assert(j7 as int == j6 as int + 10);
                        assert(str_at(s@, j7 as int, x.due_date));
                    }
                }
            }
            return None;
        },
    };
    let j9 = match expect(s, j8, " created_at ") {
        Some(j) => j,
        None => {
            proof {
                assert forall|x: ReminderModel| !reminder_at(s@, i as int, x) by {
                    if reminder_at(s@, i as int, x) {
                        reveal_strlit("id ");
                        reveal_strlit(" title ");
                        reveal_strlit(" description ");
                        reveal_strlit(" due_date ");
                        reveal_strlit(" created_at ");
                        reveal_strlit(" notification_periods ");
                        reveal_strlit(" is_completed ");
                        reveal_strlit("\n");
                        lemma_reminder_at_parts(s@, i as int, x);
                        assert(lit_at(s@, i as int, "id "@));
                        assert(j1 as int == i as int + 3);
                        assert(nat_at(s@, j1 as int, x.id as nat));
                        lemma_nat_at_pin(s@, j1 as int, x.id as nat);
                        assert(j2 as int == j1 as int + enc_nat(x.id as nat).len());
                        assert(lit_at(s@, j2 as int, " title "@));
                        assert(j3 as int == j2 as int + 7);
                        assert(str_at(s@, j3 as int, x.title));
                        assert(j4 as int == j3 as int + enc_str(x.title).len());
                        assert(lit_at(s@, j4 as int, " description "@));
                        assert(j5 as int == j4 as int + 13);
                        assert(opt_at(s@, j5 as int, x.description));
                        assert(j6 as int == j5 as int + enc_opt(x.description).len());
                        assert(lit_at(s@, j6 as int, " due_date "@));
                        assert(j7 as int == j6 as int + 10);
                        assert(str_at(s@, j7 as int, x.due_date));
                        assert(j8 as int == j7 as int + enc_str(x.due_date).len());
                        assert(lit_at(s@, j8 as int, " created_at "@));
                    }
                }
            }
            return None;
        },
    };
    let (created_at, j10) = match parse_str_val(s, j9) {
        Some(p) => p,
        None => {
            proof {
                assert forall|x: ReminderModel| !reminder_at(s@, i as int, x) by {
                    if reminder_at(s@, i as int, x) {
                        reveal_strlit("id ");
                        reveal_strlit(" title ");
                        reveal_strlit(" description ");
                        reveal_strlit(" due_date ");
                        reveal_strlit(" created_at ");
                        reveal_strlit(" notification_periods ");
                        reveal_strlit(" is_completed ");
                        reveal_strlit("\n");
                        lemma_reminder_at_parts(s@, i as int, x);
                        assert(lit_at(s@, i as int, "id "@));
                        assert(j1 as int == i as int + 3);
                        assert(nat_at(s@, j1 as int, x.id as nat));
                        lemma_nat_at_pin(s@, j1 as int, x.id as nat);
                        assert(j2 as int == j1 as int + enc_nat(x.id as nat).len());
                        assert(lit_at(s@, j2 as int, " title "@));
                        assert(j3 as int == j2 as int + 7);
                        assert(str_at(s@, j3 as int, x.title));
                        assert(j4 as int == j3 as int + enc_str(x.title).len());
                        assert(lit_at(s@, j4 as int, " description "@));
                        assert(j5 as int == j4 as int + 13);
                        assert(opt_at(s@, j5 as int, x.description));
                        assert(j6 as int == j5 as int + enc_opt(x.description).len());
                        assert(lit_at(s@, j6 as int, " due_date "@));
                        assert(j7 as int == j6 as int + 10);
                        assert(str_at(s@, j7 as int, x.due_date));
                        assert(j8 as int == j7 as int + enc_str(x.due_date).len());
                        assert(lit_at(s@, j8 as int, " created_at "@));
                        assert(j9 as int == j8 as int + 12);
                        assert(str_at(s@, j9 as int, x.created_at));
                    }
                }
            }
            return None;
        },
    };
    let j11 = match expect(s, j10, " notification_periods ") {
        Some(j) => j,
        None => {
            proof {
                assert forall|x: ReminderModel| !reminder_at(s@, i as int, x) by {
                    if reminder_at(s@, i as int, x) {
                        reveal_strlit("id ");
                        reveal_strlit(" title ");
                        reveal_strlit(" description ");
                        reveal_strlit(" due_date ");
                        reveal_strlit(" created_at ");
                        reveal_strlit(" notification_periods ");
                        reveal_strlit(" is_completed ");
                        reveal_strlit("\n");
                        lemma_reminder_at_parts(s@, i as int, x);
                        assert(lit_at(s@, i as int, "id "@));
                        assert(j1 as int == i as int + 3);
                        assert(nat_at(s@, j1 as int, x.id as nat));
                        lemma_nat_at_pin(s@, j1 as int, x.id as nat);
                        assert(j2 as int == j1 as int + enc_nat(x.id as nat).len());
                        assert(lit_at(s@, j2 as int, " title "@));
                        assert(j3 as int == j2 as int + 7);
                        assert(str_at(s@, j3 as int, x.title));
                        assert(j4 as int == j3 as int + enc_str(x.title).len());
                        assert(lit_at(s@, j4 as int, " description "@));
                        assert(j5 as int == j4 as int + 13);
                        assert(opt_at(s@, j5 as int, x.description));
                        assert(j6 as int == j5 as int + enc_opt(x.description).len());
                        assert(lit_at(s@, j6 as int, " due_date "@));
                        assert(j7 as int == j6 as int + 10);
                        assert(str_at(s@, j7 as int, x.due_date));
                        assert(j8 as int == j7 as int + enc_str(x.due_date).len());
                        assert(lit_at(s@, j8 as int, " created_at "@));
                        assert(j9 as int == j8 as int + 12);
                        assert(str_at(s@, j9 as int, x.created_at));
                        assert(j10 as int == j9 as int + enc_str(x.created_at).len());
                        assert(lit_at(s@, j10 as int, " notification_periods "@));
                    }
                }
            }
            return None;
        },
    };
    let (notification_periods, j12) = match parse_periods(s, j11) {
        Some(p) => p,
        None => {
            proof {
                assert forall|x: ReminderModel| !reminder_at(s@, i as int, x) by {
                    if reminder_at(s@, i as int, x) {
                        reveal_strlit("id ");
                        reveal_strlit(" title ");
                        reveal_strlit(" description ");
                        reveal_strlit(" due_date ");
                        reveal_strlit(" created_at ");
                        reveal_strlit(" notification_periods ");
                        reveal_strlit(" is_completed ");
                        reveal_strlit("\n");
                        lemma_reminder_at_parts(s@, i as int, x);
                        assert(lit_at(s@, i as int, "id "@));
                        assert(j1 as int == i as int + 3);
                        assert(nat_at(s@, j1 as int, x.id as nat));
                        lemma_nat_at_pin(s@, j1 as int, x.id as nat);
                        assert(j2 as int == j1 as int + enc_nat(x.id as nat).len());
                        assert(lit_at(s@, j2 as int, " title "@));
                        assert(j3 as int == j2 as int + 7);
                        assert(str_at(s@, j3 as int, x.title));
                        assert(j4 as int == j3 as int + enc_str(x.title).len());
                        assert(lit_at(s@, j4 as int, " description "@));
                        assert(j5 as int == j4 as int + 13);
                        assert(opt_at(s@, j5 as int, x.description));
                        assert(j6 as int == j5 as int + enc_opt(x.description).len());
                        assert(lit_at(s@, j6 as int, " due_date "@));
                        assert(j7 as int == j6 as int + 10);
                        assert(str_at(s@, j7 as int, x.due_date));
                        assert(j8 as int == j7 as int + enc_str(x.due_date).len());
                        assert(lit_at(s@, j8 as int, " created_at "@));
                        assert(j9 as int == j8 as int + 12);
                        assert(str_at(s@, j9 as int, x.created_at));
                        assert(j10 as int == j9 as int + enc_str(x.created_at).len());
                        assert(lit_at(s@, j10 as int, " notification_periods "@));
                        assert(j11 as int == j10 as int + 22);
                        assert(periods_at(s@, j11 as int, x.notification_periods));
                    }
                }
            }
            return None;
        },
    };
    let j13 = match expect(s, j12, " is_completed ") {
        Some(j) => j,
        None => {
            proof {
                assert forall|x: ReminderModel| !reminder_at(s@, i as int, x) by {
                    if reminder_at(s@, i as int, x) {
                        reveal_strlit("id ");
                        reveal_strlit(" title ");
                        reveal_strlit(" description ");
                        reveal_strlit(" due_date ");
                        reveal_strlit(" created_at ");
                        reveal_strlit(" notification_periods ");
                        reveal_strlit(" is_completed ");
                        reveal_strlit("\n");
                        lemma_reminder_at_parts(s@, i as int, x);
                        assert(lit_at(s@, i as int, "id "@));
                        assert(j1 as int == i as int + 3);
                        assert(nat_at(s@, j1 as int, x.id as nat));
                        lemma_nat_at_pin(s@, j1 as int, x.id as nat);
                        assert(j2 as int == j1 as int + enc_nat(x.id as nat).len());
                        assert(lit_at(s@, j2 as int, " title "@));
                        assert(j3 as int == j2 as int + 7);
                        assert(str_at(s@, j3 as int, x.title));
                        assert(j4 as int == j3 as int + enc_str(x.title).len());
                        assert(lit_at(s@, j4 as int, " description "@));
                        assert(j5 as int == j4 as int + 13);
                        assert(opt_at(s@, j5 as int, x.description));
                        assert(j6 as int == j5 as int + enc_opt(x.description).len());
                        assert(lit_at(s@, j6 as int, " due_date "@));
                        assert(j7 as int == j6 as int + 10);
                        assert(str_at(s@, j7 as int, x.due_date));
                        assert(j8 as int == j7 as int + enc_str(x.due_date).len());
                        assert(lit_at(s@, j8 as int, " created_at "@));
                        assert(j9 as int == j8 as int + 12);
                        assert(str_at(s@, j9 as int, x.created_at));
                        assert(j10 as int == j9 as int + enc_str(x.created_at).len());
                        assert(lit_at(s@, j10 as int, " notification_periods "@));
                        assert(j11 as int == j10 as int + 22);
                        assert(periods_at(s@, j11 as int, x.notification_periods));
                        assert(j12 as int == j11 as int + enc_periods(x.notification_periods).len());
                        assert(lit_at(s@, j12 as int, " is_completed "@));
                    }
                }
            }
            return None;
        },
    };
    let (is_completed, j14) = match parse_bool(s, j13) {
        Some(p) => p,
        None => {
            proof {
                assert forall|x: ReminderModel| !reminder_at(s@, i as int, x) by {
                    if reminder_at(s@, i as int, x) {
                        reveal_strlit("id ");
                        reveal_strlit(" title ");
                        reveal_strlit(" description ");
                        reveal_strlit(" due_date ");
                        reveal_strlit(" created_at ");
                        reveal_strlit(" notification_periods ");
                        reveal_strlit(" is_completed ");
                        reveal_strlit("\n");
                        lemma_reminder_at_parts(s@, i as int, x);
                        assert(lit_at(s@, i as int, "id "@));
                        assert(j1 as int == i as int + 3);
                        assert(nat_at(s@, j1 as int, x.id as nat));
                        lemma_nat_at_pin(s@, j1 as int, x.id as nat);
                        assert(j2 as int == j1 as int + enc_nat(x.id as nat).len());
                        assert(lit_at(s@, j2 as int, " title "@));
                        assert(j3 as int == j2 as int + 7);
                        assert(str_at(s@, j3 as int, x.title));
                        assert(j4 as int == j3 as int + enc_str(x.title).len());
                        assert(lit_at(s@, j4 as int, " description "@));
                        assert(j5 as int == j4 as int + 13);
                        assert(opt_at(s@, j5 as int, x.description));
                        assert(j6 as int == j5 as int + enc_opt(x.description).len());
                        assert(lit_at(s@, j6 as int, " due_date "@));
                        assert(j7 as int == j6 as int + 10);
                        assert(str_at(s@, j7 as int, x.due_date));
                        assert(j8 as int == j7 as int + enc_str(x.due_date).len());
                        assert(lit_at(s@, j8 as int, " created_at "@));
                        assert(j9 as int == j8 as int + 12);
                        assert(str_at(s@, j9 as int, x.created_at));
                        assert(j10 as int == j9 as int + enc_str(x.created_at).len());
                        assert(lit_at(s@, j10 as int, " notification_periods "@));
                        assert(j11 as int == j10 as int + 22);
                        assert(periods_at(s@, j11 as int, x.notification_periods));
                        assert(j12 as int == j11 as int + enc_periods(x.notification_periods).len());
                        assert(lit_at(s@, j12 as int, " is_completed "@));
                        assert(j13 as int == j12 as int + 14);
                        assert(bool_at(s@, j13 as int, x.is_completed));
                    }
                }
            }
            return None;
        },
    };
    let j15 = match expect(s, j14, "\n") {
        Some(j) => j,
        None => {
            proof {
                assert forall|x: ReminderModel| !reminder_at(s@, i as int, x) by {
                    if reminder_at(s@, i as int, x) {
                        reveal_strlit("id ");
                        reveal_strlit(" title ");
                        reveal_strlit(" description ");
                        reveal_strlit(" due_date ");
                        reveal_strlit(" created_at ");
                        reveal_strlit(" notification_periods ");
                        reveal_strlit(" is_completed ");
                        reveal_strlit("\n");
                        lemma_reminder_at_parts(s@, i as int, x);
                        assert(lit_at(s@, i as int, "id "@));
                        assert(j1 as int == i as int + 3);
                        assert(nat_at(s@, j1 as int, x.id as nat));
                        lemma_nat_at_pin(s@, j1 as int, x.id as nat);
                        assert(j2 as int == j1 as int + enc_nat(x.id as nat).len());
                        assert(lit_at(s@, j2 as int, " title "@));
                        assert(j3 as int == j2 as int + 7);
                        assert(str_at(s@, j3 as int, x.title));
                        assert(j4 as int == j3 as int + enc_str(x.title).len());
                        assert(lit_at(s@, j4 as int, " description "@));
                        assert(j5 as int == j4 as int + 13);
                        assert(opt_at(s@, j5 as int, x.description));
                        assert(j6 as int == j5 as int + enc_opt(x.description).len());
                        assert(lit_at(s@, j6 as int, " due_date "@));
                        assert(j7 as int == j6 as int + 10);
                        assert(str_at(s@, j7 as int, x.due_date));
                        assert(j8 as int == j7 as int + enc_str(x.due_date).len());
                        assert(lit_at(s@, j8 as int, " created_at "@));
                        assert(j9 as int == j8 as int + 12);
                        assert(str_at(s@, j9 as int, x.created_at));
                        assert(j10 as int == j9 as int + enc_str(x.created_at).len());
                        assert(lit_at(s@, j10 as int, " notification_periods "@));
                        assert(j11 as int == j10 as int + 22);
                        assert(periods_at(s@, j11 as int, x.notification_periods));
                        assert(j12 as int == j11 as int + enc_periods(x.notification_periods).len());
                        assert(lit_at(s@, j12 as int, " is_completed "@));
                        assert(j13 as int == j12 as int + 14);
                        assert(bool_at(s@, j13 as int, x.is_completed));
                        assert(j14 as int == j13 as int + enc_bool(x.is_completed).len());
                        assert(lit_at(s@, j14 as int, "\n"@));
                    }
                }
            }
            return None;
        },
    };
    proof {
        assert forall|x: ReminderModel|
            reminder_at(s@, i as int, x) implies (Reminder { id, title, description, due_date, created_at, notification_periods, is_completed }@ == x && j15 as int == i + enc_reminder(x).len()) by {
                reveal_strlit("id ");
                reveal_strlit(" title ");
                reveal_strlit(" description ");
                reveal_strlit(" due_date ");
                reveal_strlit(" created_at ");
                reveal_strlit(" notification_periods ");
                reveal_strlit(" is_completed ");
                reveal_strlit("\n");
                lemma_reminder_at_parts(s@, i as int, x);
                assert(lit_at(s@, i as int, "id "@));
                assert(j1 as int == i as int + 3);
                assert(nat_at(s@, j1 as int, x.id as nat));
                lemma_nat_at_pin(s@, j1 as int, x.id as nat);
                assert(id == x.id);
                assert(j2 as int == j1 as int + enc_nat(x.id as nat).len());
                assert(lit_at(s@, j2 as int, " title "@));
                assert(j3 as int == j2 as int + 7);
                assert(str_at(s@, j3 as int, x.title));
                assert(title@ == x.title);
                assert(j4 as int == j3 as int + enc_str(x.title).len());
                assert(lit_at(s@, j4 as int, " description "@));
                assert(j5 as int == j4 as int + 13);
                assert(opt_at(s@, j5 as int, x.description));
                assert(crate::store::opt_view(description) == x.description);
                assert(j6 as int == j5 as int + enc_opt(x.description).len());
                assert(lit_at(s@, j6 as int, " due_date "@));
                assert(j7 as int == j6 as int + 10);
                assert(str_at(s@, j7 as int, x.due_date));
                assert(due_date@ == x.due_date);
                assert(j8 as int == j7 as int + enc_str(x.due_date).len());
                assert(lit_at(s@, j8 as int, " created_at "@));
                assert(j9 as int == j8 as int + 12);
                assert(str_at(s@, j9 as int, x.created_at));
                assert(created_at@ == x.created_at);
                assert(j10 as int == j9 as int + enc_str(x.created_at).len());
                assert(lit_at(s@, j10 as int, " notification_periods "@));
                assert(j11 as int == j10 as int + 22);
                assert(periods_at(s@, j11 as int, x.notification_periods));
                assert(notification_periods@ == x.notification_periods);
                assert(j12 as int == j11 as int + enc_periods(x.notification_periods).len());
                assert(lit_at(s@, j12 as int, " is_completed "@));
                assert(j13 as int == j12 as int + 14);
                assert(bool_at(s@, j13 as int, x.is_completed));
                assert(is_completed == x.is_completed);
                assert(j14 as int == j13 as int + enc_bool(x.is_completed).len());
                assert(lit_at(s@, j14 as int, "\n"@));
                assert(j15 as int == j14 as int + 1);
        }
    }
    Some((Reminder { id, title, description, due_date, created_at, notification_periods, is_completed }, j15))
}

pub open spec fn enc_sessions_from(xs: Seq<SessionModel>, k: int) -> Seq<char>
    decreases xs.len() - k,
    when k <= xs.len()
{
    if k < 0 || k >= xs.len() {
        Seq::<char>::empty()
    } else {
        enc_session(xs[k]) + enc_sessions_from(xs, k + 1)
    }
}

/// A session list's text is the text of its first `k` records followed by
/// the text of the rest.
proof fn lemma_sessions_bridge(xs: Seq<SessionModel>, k: int)
    requires
        0 <= k <= xs.len(),
    ensures
        enc_sessions(xs) == enc_sessions(xs.take(k)) + enc_sessions_from(xs, k),
    decreases xs.len() - k,
{
    if k == xs.len() {
        assert(xs.take(k) =~= xs);
        assert(enc_sessions(xs) + Seq::<char>::empty() =~= enc_sessions(xs));
    } else {
        lemma_sessions_bridge(xs, k + 1);
        let a = enc_sessions(xs.take(k));
        let p = enc_session(xs[k]);
        let f = enc_sessions_from(xs, k + 1);
        assert(xs.take(k + 1).drop_last() =~= xs.take(k));
        assert(xs.take(k + 1).last() == xs[k]);
        assert(enc_sessions(xs.take(k + 1)) == a + p);
        seq_assoc(a, p, f);
    }
}

/// A session list's text is at least as long as the list.
proof fn lemma_sessions_min_len(xs: Seq<SessionModel>)
    ensures
        enc_sessions(xs).len() >= xs.len(),
    decreases xs.len(),
{
    reveal_strlit("\n");
    if xs.len() > 0 {
        lemma_sessions_min_len(xs.drop_last());
    }
}

/// Where a session list's text stands, its `k`-th record stands after the
/// text of the first `k`.
proof fn lemma_sessions_at_step(s: Seq<char>, base: int, xs: Seq<SessionModel>, k: int)
    requires
        lit_at(s, base, enc_sessions(xs)),
        0 <= k < xs.len(),
    ensures
        session_at(s, base + enc_sessions(xs.take(k)).len(), xs[k]),
        enc_sessions(xs.take(k + 1)).len() == enc_sessions(xs.take(k)).len() + enc_session(
            xs[k],
        ).len(),
{
    lemma_sessions_bridge(xs, k);
    let a = enc_sessions(xs.take(k));
    let p = enc_session(xs[k]);
    let f = enc_sessions_from(xs, k + 1);
    lemma_lit_at_split(s, base, a, enc_sessions_from(xs, k));
    assert(enc_sessions_from(xs, k) == p + f);
    lemma_lit_at_split(s, base + a.len(), p, f);
    assert(xs.take(k + 1).drop_last() =~= xs.take(k));
    assert(xs.take(k + 1).last() == xs[k]);
    assert(enc_sessions(xs.take(k + 1)) == a + p);
}

pub open spec fn enc_todos_from(xs: Seq<TodoModel>, k: int) -> Seq<char>
    decreases xs.len() - k,
    when k <= xs.len()
{
    if k < 0 || k >= xs.len() {
        Seq::<char>::empty()
    } else {
        enc_todo(xs[k]) + enc_todos_from(xs, k + 1)
    }
}

/// A todo list's text is the text of its first `k` records followed by
/// the text of the rest.
proof fn lemma_todos_bridge(xs: Seq<TodoModel>, k: int)
    requires
        0 <= k <= xs.len(),
    ensures
        enc_todos(xs) == enc_todos(xs.take(k)) + enc_todos_from(xs, k),
    decreases xs.len() - k,
{
    if k == xs.len() {
        assert(xs.take(k) =~= xs);
        assert(enc_todos(xs) + Seq::<char>::empty() =~= enc_todos(xs));
    } else {
        lemma_todos_bridge(xs, k + 1);
        let a = enc_todos(xs.take(k));
        let p = enc_todo(xs[k]);
        let f = enc_todos_from(xs, k + 1);
        assert(xs.take(k + 1).drop_last() =~= xs.take(k));
        assert(xs.take(k + 1).last() == xs[k]);
        assert(enc_todos(xs.take(k + 1)) == a + p);
        seq_assoc(a, p, f);
    }
}

/// A todo list's text is at least as long as the list.
proof fn lemma_todos_min_len(xs: Seq<TodoModel>)
    ensures
        enc_todos(xs).len() >= xs.len(),
    decreases xs.len(),
{
    reveal_strlit("\n");
    if xs.len() > 0 {
        lemma_todos_min_len(xs.drop_last());
    }
}

/// Where a todo list's text stands, its `k`-th record stands after the
/// text of the first `k`.
proof fn lemma_todos_at_step(s: Seq<char>, base: int, xs: Seq<TodoModel>, k: int)
    requires
        lit_at(s, base, enc_todos(xs)),
        0 <= k < xs.len(),
    ensures
        todo_at(s, base + enc_todos(xs.take(k)).len(), xs[k]),
        enc_todos(xs.take(k + 1)).len() == enc_todos(xs.take(k)).len() + enc_todo(
            xs[k],
        ).len(),
{
    lemma_todos_bridge(xs, k);
    let a = enc_todos(xs.take(k));
    let p = enc_todo(xs[k]);
    let f = enc_todos_from(xs, k + 1);
    lemma_lit_at_split(s, base, a, enc_todos_from(xs, k));
    assert(enc_todos_from(xs, k) == p + f);
    lemma_lit_at_split(s, base + a.len(), p, f);
    assert(xs.take(k + 1).drop_last() =~= xs.take(k));
    assert(xs.take(k + 1).last() == xs[k]);
    assert(enc_todos(xs.take(k + 1)) == a + p);
}

pub open spec fn enc_reminders_from(xs: Seq<ReminderModel>, k: int) -> Seq<char>
    decreases xs.len() - k,
    when k <= xs.len()
{
    if k < 0 || k >= xs.len() {
        Seq::<char>::empty()
    } else {
        enc_reminder(xs[k]) + enc_reminders_from(xs, k + 1)
    }
}

/// A reminder list's text is the text of its first `k` records followed by
/// the text of the rest.
proof fn lemma_reminders_bridge(xs: Seq<ReminderModel>, k: int)
    requires
        0 <= k <= xs.len(),
    ensures
        enc_reminders(xs) == enc_reminders(xs.take(k)) + enc_reminders_from(xs, k),
    decreases xs.len() - k,
{
    if k == xs.len() {
        assert(xs.take(k) =~= xs);
        assert(enc_reminders(xs) + Seq::<char>::empty() =~= enc_reminders(xs));
    } else {
        lemma_reminders_bridge(xs, k + 1);
        let a = enc_reminders(xs.take(k));
        let p = enc_reminder(xs[k]);
        let f = enc_reminders_from(xs, k + 1);
        assert(xs.take(k + 1).drop_last() =~= xs.take(k));
        assert(xs.take(k + 1).last() == xs[k]);
        assert(enc_reminders(xs.take(k + 1)) == a + p);
        seq_assoc(a, p, f);
    }
}

/// A reminder list's text is at least as long as the list.
proof fn lemma_reminders_min_len(xs: Seq<ReminderModel>)
    ensures
        enc_reminders(xs).len() >= xs.len(),
    decreases xs.len(),
{
    reveal_strlit("\n");
    if xs.len() > 0 {
        lemma_reminders_min_len(xs.drop_last());
    }
}

/// Where a reminder list's text stands, its `k`-th record stands after the
/// text of the first `k`.
proof fn lemma_reminders_at_step(s: Seq<char>, base: int, xs: Seq<ReminderModel>, k: int)
    requires
        lit_at(s, base, enc_reminders(xs)),
        0 <= k < xs.len(),
    ensures
        reminder_at(s, base + enc_reminders(xs.take(k)).len(), xs[k]),
        enc_reminders(xs.take(k + 1)).len() == enc_reminders(xs.take(k)).len() + enc_reminder(
            xs[k],
        ).len(),
{
    lemma_reminders_bridge(xs, k);
    let a = enc_reminders(xs.take(k));
    let p = enc_reminder(xs[k]);
    let f = enc_reminders_from(xs, k + 1);
    lemma_lit_at_split(s, base, a, enc_reminders_from(xs, k));
    assert(enc_reminders_from(xs, k) == p + f);
    lemma_lit_at_split(s, base + a.len(), p, f);
    assert(xs.take(k + 1).drop_last() =~= xs.take(k));
    assert(xs.take(k + 1).last() == xs[k]);
    assert(enc_reminders(xs.take(k + 1)) == a + p);
}

/// The text `s` is the canonical form of the store model `m`.
pub open spec fn store_at(s: Seq<char>, m: StoreModel) -> bool {
    s == spec_ser(m)
}

/// The canonical text of a store splits into its three counted record
/// lists.
#[verifier::rlimit(100)]
proof fn lemma_store_at_parts(s: Seq<char>, m: StoreModel)
    requires
        store_at(s, m),
    ensures
        ({
            let sb = 9 + enc_nat(m.sessions.len()).len() as int + 1;
            let tb0 = sb + enc_sessions(m.sessions).len() as int;
            let tb = tb0 + 6 + enc_nat(m.todos.len()).len() as int + 1;
            let rb0 = tb + enc_todos(m.todos).len() as int;
            let rb = rb0 + 10 + enc_nat(m.reminders.len()).len() as int + 1;
            lit_at(s, 0, "sessions "@) && nat_at(s, 9, m.sessions.len()) && m.sessions.len()
                <= s.len() && lit_at(s, 9 + enc_nat(m.sessions.len()).len() as int, "\n"@)
                && lit_at(s, sb, enc_sessions(m.sessions)) && lit_at(s, tb0, "todos "@) && nat_at(
                s,
                tb0 + 6,
                m.todos.len(),
            ) && m.todos.len() <= s.len() && lit_at(
                s,
                tb0 + 6 + enc_nat(m.todos.len()).len() as int,
                "\n"@,
            ) && lit_at(s, tb, enc_todos(m.todos)) && lit_at(s, rb0, "reminders "@) && nat_at(
                s,
                rb0 + 10,
                m.reminders.len(),
            ) && m.reminders.len() <= s.len() && lit_at(
                s,
                rb0 + 10 + enc_nat(m.reminders.len()).len() as int,
                "\n"@,
            ) && lit_at(s, rb, enc_reminders(m.reminders)) && s.len() == rb + enc_reminders(
                m.reminders,
            ).len()
        }),
{
    reveal_strlit("sessions ");
    reveal_strlit("todos ");
    reveal_strlit("reminders ");
    reveal_strlit("\n");
    let p0 = "sessions "@;
    let p1 = enc_nat(m.sessions.len());
    let p2 = "\n"@;
    let p3 = enc_sessions(m.sessions);
    let p4 = "todos "@;
    let p5 = enc_nat(m.todos.len());
    let p6 = "\n"@;
    let p7 = enc_todos(m.todos);
    let p8 = "reminders "@;
    let p9 = enc_nat(m.reminders.len());
    let p10 = "\n"@;
    let p11 = enc_reminders(m.reminders);
    assert(s.subrange(0, s.len() as int) =~= s);
    assert(lit_at(s, 0, spec_ser(m)));
    lemma_lit_at_split(s, 0, ((((((((((p0 + p1) + p2) + p3) + p4) + p5) + p6) + p7) + p8) + p9) + p10), p11);
    lemma_lit_at_split(s, 0, (((((((((p0 + p1) + p2) + p3) + p4) + p5) + p6) + p7) + p8) + p9), p10);
    lemma_lit_at_split(s, 0, ((((((((p0 + p1) + p2) + p3) + p4) + p5) + p6) + p7) + p8), p9);
    lemma_lit_at_split(s, 0, (((((((p0 + p1) + p2) + p3) + p4) + p5) + p6) + p7), p8);
    lemma_lit_at_split(s, 0, ((((((p0 + p1) + p2) + p3) + p4) + p5) + p6), p7);
    lemma_lit_at_split(s, 0, (((((p0 + p1) + p2) + p3) + p4) + p5), p6);
    lemma_lit_at_split(s, 0, ((((p0 + p1) + p2) + p3) + p4), p5);
    lemma_lit_at_split(s, 0, (((p0 + p1) + p2) + p3), p4);
    lemma_lit_at_split(s, 0, ((p0 + p1) + p2), p3);
    lemma_lit_at_split(s, 0, (p0 + p1), p2);
    lemma_lit_at_split(s, 0, p0, p1);
    lemma_sessions_min_len(m.sessions);
    lemma_todos_min_len(m.todos);
    lemma_reminders_min_len(m.reminders);
    let o1 = 9 + p1.len() as int;
    assert(s.subrange(o1, o1 + 1)[0] == s[o1]);
    assert(s[o1] == '\n');
    let tb0 = o1 + 1 + p3.len() as int;
    let o2 = tb0 + 6 + p5.len() as int;
    assert(s.subrange(o2, o2 + 1)[0] == s[o2]);
    assert(s[o2] == '\n');
    let rb0 = o2 + 1 + p7.len() as int;
    let o3 = rb0 + 10 + p9.len() as int;
    assert(s.subrange(o3, o3 + 1)[0] == s[o3]);
    assert(s[o3] == '\n');
}

#[verifier::loop_isolation(false)]
#[verifier::rlimit(100)]
fn parse_sessions_list(s: &str, i: usize, count: u64) -> (r: Option<(Vec<StudySession>, usize)>)
    requires
        i <= s@.len(),
    ensures
        r matches Some(p) ==> i <= p.1 <= s@.len(),
        forall|xs: Seq<SessionModel>|
            (xs.len() == count && lit_at(s@, i as int, enc_sessions(xs))) ==> (r matches Some(q)
                && q.0@.map_values(|t: StudySession| t@) == xs && q.1 as int == i + enc_sessions(xs).len()),
{
    let mut out: Vec<StudySession> = Vec::new();
    let mut j: usize = i;
    let mut k: u64 = 0;
    proof {
        assert forall|xs: Seq<SessionModel>|
            (xs.len() == count && lit_at(s@, i as int, enc_sessions(xs))) implies (out@.map_values(
            |t: StudySession| t@,
        ) == xs.take(0) && j as int == i + enc_sessions(xs.take(0)).len()) by {
            assert(xs.take(0) =~= Seq::<SessionModel>::empty());
            assert(out@.map_values(|t: StudySession| t@) =~= xs.take(0));
        }
    }
    while k < count
        invariant
            i <= j <= s@.len(),
            k <= count,
            out@.len() == k,
            forall|xs: Seq<SessionModel>|
                (xs.len() == count && lit_at(s@, i as int, enc_sessions(xs))) ==> (k <= xs.len()
                    && out@.map_values(|t: StudySession| t@) == xs.take(k as int) && j as int == i
                    + enc_sessions(xs.take(k as int)).len()),
        decreases count - k,
    {
        match parse_session(s, j) {
            Some((x, j2)) => {
                proof {
                    assert forall|xs: Seq<SessionModel>|
                        (xs.len() == count && lit_at(s@, i as int, enc_sessions(xs))) implies (
                    x@ == xs[k as int] && j2 as int == i + enc_sessions(
                        xs.take(k as int + 1),
                    ).len()) by {
                        lemma_sessions_at_step(s@, i as int, xs, k as int);
                        assert(session_at(s@, j as int, xs[k as int]));
                    }
                }
                out.push(x);
                j = j2;
                proof {
                    assert forall|xs: Seq<SessionModel>|
                        (xs.len() == count && lit_at(s@, i as int, enc_sessions(xs))) implies (
                    out@.map_values(|t: StudySession| t@) == xs.take(k as int + 1)) by {
                        assert(x@ == xs[k as int]);
                        assert(xs.take(k as int + 1) =~= xs.take(k as int).push(xs[k as int]));
                        assert(out@.map_values(|t: StudySession| t@) =~= xs.take(k as int + 1));
                    }
                }
            },
            None => {
                proof {
                    assert forall|xs: Seq<SessionModel>|
                        !(xs.len() == count && lit_at(s@, i as int, enc_sessions(xs))) by {
                        if xs.len() == count && lit_at(s@, i as int, enc_sessions(xs)) {
                            lemma_sessions_at_step(s@, i as int, xs, k as int);
                            assert(session_at(s@, j as int, xs[k as int]));
                        }
                    }
                }
                return None;
            },
        }
        k += 1;
    }
    proof {
        assert forall|xs: Seq<SessionModel>|
            (xs.len() == count && lit_at(s@, i as int, enc_sessions(xs))) implies (out@.map_values(
            |t: StudySession| t@,
        ) == xs && j as int == i + enc_sessions(xs).len()) by {
            assert(xs.take(k as int) =~= xs);
        }
    }
    Some((out, j))
}

#[verifier::loop_isolation(false)]
#[verifier::rlimit(100)]
fn parse_todos_list(s: &str, i: usize, count: u64) -> (r: Option<(Vec<Todo>, usize)>)
    requires
        i <= s@.len(),
    ensures
        r matches Some(p) ==> i <= p.1 <= s@.len(),
        forall|xs: Seq<TodoModel>|
            (xs.len() == count && lit_at(s@, i as int, enc_todos(xs))) ==> (r matches Some(q)
                && q.0@.map_values(|t: Todo| t@) == xs && q.1 as int == i + enc_todos(xs).len()),
{
    let mut out: Vec<Todo> = Vec::new();
    let mut j: usize = i;
    let mut k: u64 = 0;
    proof {
        assert forall|xs: Seq<TodoModel>|
            (xs.len() == count && lit_at(s@, i as int, enc_todos(xs))) implies (out@.map_values(
            |t: Todo| t@,
        ) == xs.take(0) && j as int == i + enc_todos(xs.take(0)).len()) by {
            assert(xs.take(0) =~= Seq::<TodoModel>::empty());
            assert(out@.map_values(|t: Todo| t@) =~= xs.take(0));
        }
    }
    while k < count
        invariant
            i <= j <= s@.len(),
            k <= count,
            out@.len() == k,
            forall|xs: Seq<TodoModel>|
                (xs.len() == count && lit_at(s@, i as int, enc_todos(xs))) ==> (k <= xs.len()
                    && out@.map_values(|t: Todo| t@) == xs.take(k as int) && j as int == i
                    + enc_todos(xs.take(k as int)).len()),
        decreases count - k,
    {
        match parse_todo(s, j) {
            Some((x, j2)) => {
                proof {
                    assert forall|xs: Seq<TodoModel>|
                        (xs.len() == count && lit_at(s@, i as int, enc_todos(xs))) implies (
                    x@ == xs[k as int] && j2 as int == i + enc_todos(
                        xs.take(k as int + 1),
                    ).len()) by {
                        lemma_todos_at_step(s@, i as int, xs, k as int);
                        assert(todo_at(s@, j as int, xs[k as int]));
                    }
                }
                out.push(x);
                j = j2;
                proof {
                    assert forall|xs: Seq<TodoModel>|
                        (xs.len() == count && lit_at(s@, i as int, enc_todos(xs))) implies (
                    out@.map_values(|t: Todo| t@) == xs.take(k as int + 1)) by {
                        assert(x@ == xs[k as int]);
                        assert(xs.take(k as int + 1) =~= xs.take(k as int).push(xs[k as int]));
                        assert(out@.map_values(|t: Todo| t@) =~= xs.take(k as int + 1));
                    }
                }
            },
            None => {
                proof {
                    assert forall|xs: Seq<TodoModel>|
                        !(xs.len() == count && lit_at(s@, i as int, enc_todos(xs))) by {
                        if xs.len() == count && lit_at(s@, i as int, enc_todos(xs)) {
                            lemma_todos_at_step(s@, i as int, xs, k as int);
                            assert(todo_at(s@, j as int, xs[k as int]));
                        }
                    }
                }
                return None;
            },
        }
        k += 1;
    }
    proof {
        assert forall|xs: Seq<TodoModel>|
            (xs.len() == count && lit_at(s@, i as int, enc_todos(xs))) implies (out@.map_values(
            |t: Todo| t@,
        ) == xs && j as int == i + enc_todos(xs).len()) by {
            assert(xs.take(k as int) =~= xs);
        }
    }
    Some((out, j))
}

#[verifier::loop_isolation(false)]
#[verifier::rlimit(100)]
fn parse_reminders_list(s: &str, i: usize, count: u64) -> (r: Option<(Vec<Reminder>, usize)>)
    requires
        i <= s@.len(),
    ensures
        r matches Some(p) ==> i <= p.1 <= s@.len(),
        forall|xs: Seq<ReminderModel>|
            (xs.len() == count && lit_at(s@, i as int, enc_reminders(xs))) ==> (r matches Some(q)
                && q.0@.map_values(|t: Reminder| t@) == xs && q.1 as int == i + enc_reminders(xs).len()),
{
    let mut out: Vec<Reminder> = Vec::new();
    let mut j: usize = i;
    let mut k: u64 = 0;
    proof {
        assert forall|xs: Seq<ReminderModel>|
            (xs.len() == count && lit_at(s@, i as int, enc_reminders(xs))) implies (out@.map_values(
            |t: Reminder| t@,
        ) == xs.take(0) && j as int == i + enc_reminders(xs.take(0)).len()) by {
            assert(xs.take(0) =~= Seq::<ReminderModel>::empty());
            assert(out@.map_values(|t: Reminder| t@) =~= xs.take(0));
        }
    }
    while k < count
        invariant
            i <= j <= s@.len(),
            k <= count,
            out@.len() == k,
            forall|xs: Seq<ReminderModel>|
                (xs.len() == count && lit_at(s@, i as int, enc_reminders(xs))) ==> (k <= xs.len()
                    && out@.map_values(|t: Reminder| t@) == xs.take(k as int) && j as int == i
                    + enc_reminders(xs.take(k as int)).len()),
        decreases count - k,
    {
        match parse_reminder(s, j) {
            Some((x, j2)) => {
                proof {
                    assert forall|xs: Seq<ReminderModel>|
                        (xs.len() == count && lit_at(s@, i as int, enc_reminders(xs))) implies (
                    x@ == xs[k as int] && j2 as int == i + enc_reminders(
                        xs.take(k as int + 1),
                    ).len()) by {
                        lemma_reminders_at_step(s@, i as int, xs, k as int);
                        assert(reminder_at(s@, j as int, xs[k as int]));
                    }
                }
                out.push(x);
                j = j2;
                proof {
                    assert forall|xs: Seq<ReminderModel>|
                        (xs.len() == count && lit_at(s@, i as int, enc_reminders(xs))) implies (
                    out@.map_values(|t: Reminder| t@) == xs.take(k as int + 1)) by {
                        assert(x@ == xs[k as int]);
                        assert(xs.take(k as int + 1) =~= xs.take(k as int).push(xs[k as int]));
                        assert(out@.map_values(|t: Reminder| t@) =~= xs.take(k as int + 1));
                    }
                }
            },
            None => {
                proof {
                    assert forall|xs: Seq<ReminderModel>|
                        !(xs.len() == count && lit_at(s@, i as int, enc_reminders(xs))) by {
                        if xs.len() == count && lit_at(s@, i as int, enc_reminders(xs)) {
                            lemma_reminders_at_step(s@, i as int, xs, k as int);
                            assert(reminder_at(s@, j as int, xs[k as int]));
                        }
                    }
                }
                return None;
            },
        }
        k += 1;
    }
    proof {
        assert forall|xs: Seq<ReminderModel>|
            (xs.len() == count && lit_at(s@, i as int, enc_reminders(xs))) implies (out@.map_values(
            |t: Reminder| t@,
        ) == xs && j as int == i + enc_reminders(xs).len()) by {
            assert(xs.take(k as int) =~= xs);
        }
    }
    Some((out, j))
}

#[verifier::rlimit(100)]
fn parse_store(s: &str) -> (r: Option<StudyData>)
    ensures
        forall|m: StoreModel| store_at(s@, m) ==> (r matches Some(d) && d@ == m),
{
    let n = s.unicode_len();
    let j1 = match expect(s, 0, "sessions ") {
        Some(j) => j,
        None => {
            proof {
                assert forall|m: StoreModel| !store_at(s@, m) by {
                    if store_at(s@, m) {
                    reveal_strlit("sessions ");
                    reveal_strlit("todos ");
                    reveal_strlit("reminders ");
                    reveal_strlit("\n");
                    lemma_store_at_parts(s@, m);
                    }
                }
            }
            return None;
        },
    };
    let (ns, j2) = match parse_nat(s, j1) {
        Some(p) => p,
        None => {
            proof {
                assert forall|m: StoreModel| !store_at(s@, m) by {
                    if store_at(s@, m) {
                    reveal_strlit("sessions ");
                    reveal_strlit("todos ");
                    reveal_strlit("reminders ");
                    reveal_strlit("\n");
                    lemma_store_at_parts(s@, m);
                    assert(j1 as int == 9);
                    assert(nat_at(s@, 9, m.sessions.len()));
                    lemma_nat_at_pin(s@, 9, m.sessions.len());
                    }
                }
            }
            return None;
        },
    };
    let js0 = match expect(s, j2, "\n") {
        Some(j) => j,
        None => {
            proof {
                assert forall|m: StoreModel| !store_at(s@, m) by {
                    if store_at(s@, m) {
                    reveal_strlit("sessions ");
                    reveal_strlit("todos ");
                    reveal_strlit("reminders ");
                    reveal_strlit("\n");
                    lemma_store_at_parts(s@, m);
                    assert(j1 as int == 9);
                    assert(nat_at(s@, 9, m.sessions.len()));
                    lemma_nat_at_pin(s@, 9, m.sessions.len());
                    assert(ns as nat == m.sessions.len());
                    assert(j2 as int == 9 + enc_nat(m.sessions.len()).len());
                    assert(lit_at(s@, j2 as int, "\n"@));
                    }
                }
            }
            return None;
        },
    };
    let (sessions, js) = match parse_sessions_list(s, js0, ns) {
        Some(p) => p,
        None => {
            proof {
                assert forall|m: StoreModel| !store_at(s@, m) by {
                    if store_at(s@, m) {
                    reveal_strlit("sessions ");
                    reveal_strlit("todos ");
                    reveal_strlit("reminders ");
                    reveal_strlit("\n");
                    lemma_store_at_parts(s@, m);
                    assert(j1 as int == 9);
                    assert(nat_at(s@, 9, m.sessions.len()));
                    lemma_nat_at_pin(s@, 9, m.sessions.len());
                    assert(ns as nat == m.sessions.len());
                    assert(j2 as int == 9 + enc_nat(m.sessions.len()).len());
                    assert(lit_at(s@, j2 as int, "\n"@));
                    assert(js0 as int == j2 + 1);
                    assert(lit_at(s@, js0 as int, enc_sessions(m.sessions)));
                    }
                }
            }
            return None;
        },
    };
    let j3 = match expect(s, js, "todos ") {
        Some(j) => j,
        None => {
            proof {
                assert forall|m: StoreModel| !store_at(s@, m) by {
                    if store_at(s@, m) {
                    reveal_strlit("sessions ");
                    reveal_strlit("todos ");
                    reveal_strlit("reminders ");
                    reveal_strlit("\n");
                    lemma_store_at_parts(s@, m);
                    assert(j1 as int == 9);
                    assert(nat_at(s@, 9, m.sessions.len()));
                    lemma_nat_at_pin(s@, 9, m.sessions.len());
                    assert(ns as nat == m.sessions.len());
                    assert(j2 as int == 9 + enc_nat(m.sessions.len()).len());
                    assert(lit_at(s@, j2 as int, "\n"@));
                    assert(js0 as int == j2 + 1);
                    assert(lit_at(s@, js0 as int, enc_sessions(m.sessions)));
                    assert(sessions@.map_values(|t: StudySession| t@) == m.sessions);
                    assert(js as int == 9 + enc_nat(m.sessions.len()).len() as int + 1 + enc_sessions(m.sessions).len() as int);
                    assert(lit_at(s@, js as int, "todos "@));
                    }
                }
            }
            return None;
        },
    };
    let (nt, j4) = match parse_nat(s, j3) {
        Some(p) => p,
        None => {
            proof {
                assert forall|m: StoreModel| !store_at(s@, m) by {
                    if store_at(s@, m) {
                    reveal_strlit("sessions ");
                    reveal_strlit("todos ");
                    reveal_strlit("reminders ");
                    reveal_strlit("\n");
                    lemma_store_at_parts(s@, m);
                    assert(j1 as int == 9);
                    assert(nat_at(s@, 9, m.sessions.len()));
                    lemma_nat_at_pin(s@, 9, m.sessions.len());
                    assert(ns as nat == m.sessions.len());
                    assert(j2 as int == 9 + enc_nat(m.sessions.len()).len());
                    assert(lit_at(s@, j2 as int, "\n"@));
                    assert(js0 as int == j2 + 1);
                    assert(lit_at(s@, js0 as int, enc_sessions(m.sessions)));
                    assert(sessions@.map_values(|t: StudySession| t@) == m.sessions);
                    assert(js as int == 9 + enc_nat(m.sessions.len()).len() as int + 1 + enc_sessions(m.sessions).len() as int);
                    assert(lit_at(s@, js as int, "todos "@));
                    assert(j3 as int == js + 6);
                    assert(nat_at(s@, j3 as int, m.todos.len()));
                    lemma_nat_at_pin(s@, j3 as int, m.todos.len());
                    }
                }
            }
            return None;
        },
    };
    let jt0 = match expect(s, j4, "\n") {
        Some(j) => j,
        None => {
            proof {
                assert forall|m: StoreModel| !store_at(s@, m) by {
                    if store_at(s@, m) {
                    reveal_strlit("sessions ");
                    reveal_strlit("todos ");
                    reveal_strlit("reminders ");
                    reveal_strlit("\n");
                    lemma_store_at_parts(s@, m);
                    assert(j1 as int == 9);
                    assert(nat_at(s@, 9, m.sessions.len()));
                    lemma_nat_at_pin(s@, 9, m.sessions.len());
                    assert(ns as nat == m.sessions.len());
                    assert(j2 as int == 9 + enc_nat(m.sessions.len()).len());
                    assert(lit_at(s@, j2 as int, "\n"@));
                    assert(js0 as int == j2 + 1);
                    assert(lit_at(s@, js0 as int, enc_sessions(m.sessions)));
                    assert(sessions@.map_values(|t: StudySession| t@) == m.sessions);
                    assert(js as int == 9 + enc_nat(m.sessions.len()).len() as int + 1 + enc_sessions(m.sessions).len() as int);
                    assert(lit_at(s@, js as int, "todos "@));
                    assert(j3 as int == js + 6);
                    assert(nat_at(s@, j3 as int, m.todos.len()));
                    lemma_nat_at_pin(s@, j3 as int, m.todos.len());
                    assert(nt as nat == m.todos.len());
                    assert(j4 as int == j3 + enc_nat(m.todos.len()).len());
                    assert(lit_at(s@, j4 as int, "\n"@));
                    }
                }
            }
            return None;
        },
    };
    let (todos, jt) = match parse_todos_list(s, jt0, nt) {
        Some(p) => p,
        None => {
            proof {
                assert forall|m: StoreModel| !store_at(s@, m) by {
                    if store_at(s@, m) {
                    reveal_strlit("sessions ");
                    reveal_strlit("todos ");
                    reveal_strlit("reminders ");
                    reveal_strlit("\n");
                    lemma_store_at_parts(s@, m);
                    assert(j1 as int == 9);
                    assert(nat_at(s@, 9, m.sessions.len()));
                    lemma_nat_at_pin(s@, 9, m.sessions.len());
                    assert(ns as nat == m.sessions.len());
                    assert(j2 as int == 9 + enc_nat(m.sessions.len()).len());
                    assert(lit_at(s@, j2 as int, "\n"@));
                    assert(js0 as int == j2 + 1);
                    assert(lit_at(s@, js0 as int, enc_sessions(m.sessions)));
                    assert(sessions@.map_values(|t: StudySession| t@) == m.sessions);
                    assert(js as int == 9 + enc_nat(m.sessions.len()).len() as int + 1 + enc_sessions(m.sessions).len() as int);
                    assert(lit_at(s@, js as int, "todos "@));
                    assert(j3 as int == js + 6);
                    assert(nat_at(s@, j3 as int, m.todos.len()));
                    lemma_nat_at_pin(s@, j3 as int, m.todos.len());
                    assert(nt as nat == m.todos.len());
                    assert(j4 as int == j3 + enc_nat(m.todos.len()).len());
                    assert(lit_at(s@, j4 as int, "\n"@));
                    assert(jt0 as int == j4 + 1);
                    assert(lit_at(s@, jt0 as int, enc_todos(m.todos)));
                    }
                }
            }
            return None;
        },
    };
    let j5 = match expect(s, jt, "reminders ") {
        Some(j) => j,
        None => {
            proof {
                assert forall|m: StoreModel| !store_at(s@, m) by {
                    if store_at(s@, m) {
                    reveal_strlit("sessions ");
                    reveal_strlit("todos ");
                    reveal_strlit("reminders ");
                    reveal_strlit("\n");
                    lemma_store_at_parts(s@, m);
                    assert(j1 as int == 9);
                    assert(nat_at(s@, 9, m.sessions.len()));
                    lemma_nat_at_pin(s@, 9, m.sessions.len());
                    assert(ns as nat == m.sessions.len());
                    assert(j2 as int == 9 + enc_nat(m.sessions.len()).len());
                    assert(lit_at(s@, j2 as int, "\n"@));
                    assert(js0 as int == j2 + 1);
                    assert(lit_at(s@, js0 as int, enc_sessions(m.sessions)));
                    assert(sessions@.map_values(|t: StudySession| t@) == m.sessions);
                    assert(js as int == 9 + enc_nat(m.sessions.len()).len() as int + 1 + enc_sessions(m.sessions).len() as int);
                    assert(lit_at(s@, js as int, "todos "@));
                    assert(j3 as int == js + 6);
                    assert(nat_at(s@, j3 as int, m.todos.len()));
                    lemma_nat_at_pin(s@, j3 as int, m.todos.len());
                    assert(nt as nat == m.todos.len());
                    assert(j4 as int == j3 + enc_nat(m.todos.len()).len());
                    assert(lit_at(s@, j4 as int, "\n"@));
                    assert(jt0 as int == j4 + 1);
                    assert(lit_at(s@, jt0 as int, enc_todos(m.todos)));
                    assert(todos@.map_values(|t: Todo| t@) == m.todos);
                    assert(jt as int == 9 + enc_nat(m.sessions.len()).len() as int + 1 + enc_sessions(m.sessions).len() as int + 6 + enc_nat(m.todos.len()).len() as int + 1 + enc_todos(m.todos).len() as int);
                    assert(lit_at(s@, jt as int, "reminders "@));
                    }
                }
            }
            return None;
        },
    };
    let (nr, j6) = match parse_nat(s, j5) {
        Some(p) => p,
        None => {
            proof {
                assert forall|m: StoreModel| !store_at(s@, m) by {
                    if store_at(s@, m) {
                    reveal_strlit("sessions ");
                    reveal_strlit("todos ");
                    reveal_strlit("reminders ");
                    reveal_strlit("\n");
                    lemma_store_at_parts(s@, m);
                    assert(j1 as int == 9);
                    assert(nat_at(s@, 9, m.sessions.len()));
                    lemma_nat_at_pin(s@, 9, m.sessions.len());
                    assert(ns as nat == m.sessions.len());
                    assert(j2 as int == 9 + enc_nat(m.sessions.len()).len());
                    assert(lit_at(s@, j2 as int, "\n"@));
                    assert(js0 as int == j2 + 1);
                    assert(lit_at(s@, js0 as int, enc_sessions(m.sessions)));
                    assert(sessions@.map_values(|t: StudySession| t@) == m.sessions);
                    assert(js as int == 9 + enc_nat(m.sessions.len()).len() as int + 1 + enc_sessions(m.sessions).len() as int);
                    assert(lit_at(s@, js as int, "todos "@));
                    assert(j3 as int == js + 6);
                    assert(nat_at(s@, j3 as int, m.todos.len()));
                    lemma_nat_at_pin(s@, j3 as int, m.todos.len());
                    assert(nt as nat == m.todos.len());
                    assert(j4 as int == j3 + enc_nat(m.todos.len()).len());
                    assert(lit_at(s@, j4 as int, "\n"@));
                    assert(jt0 as int == j4 + 1);
                    assert(lit_at(s@, jt0 as int, enc_todos(m.todos)));
                    assert(todos@.map_values(|t: Todo| t@) == m.todos);
                    assert(jt as int == 9 + enc_nat(m.sessions.len()).len() as int + 1 + enc_sessions(m.sessions).len() as int + 6 + enc_nat(m.todos.len()).len() as int + 1 + enc_todos(m.todos).len() as int);
                    assert(lit_at(s@, jt as int, "reminders "@));
                    assert(j5 as int == jt + 10);
                    assert(nat_at(s@, j5 as int, m.reminders.len()));
                    lemma_nat_at_pin(s@, j5 as int, m.reminders.len());
                    }
                }
            }
            return None;
        },
    };
    let jr0 = match expect(s, j6, "\n") {
        Some(j) => j,
        None => {
            proof {
                assert forall|m: StoreModel| !store_at(s@, m) by {
                    if store_at(s@, m) {
                    reveal_strlit("sessions ");
                    reveal_strlit("todos ");
                    reveal_strlit("reminders ");
                    reveal_strlit("\n");
                    lemma_store_at_parts(s@, m);
                    assert(j1 as int == 9);
                    assert(nat_at(s@, 9, m.sessions.len()));
                    lemma_nat_at_pin(s@, 9, m.sessions.len());
                    assert(ns as nat == m.sessions.len());
                    assert(j2 as int == 9 + enc_nat(m.sessions.len()).len());
                    assert(lit_at(s@, j2 as int, "\n"@));
                    assert(js0 as int == j2 + 1);
                    assert(lit_at(s@, js0 as int, enc_sessions(m.sessions)));
                    assert(sessions@.map_values(|t: StudySession| t@) == m.sessions);
                    assert(js as int == 9 + enc_nat(m.sessions.len()).len() as int + 1 + enc_sessions(m.sessions).len() as int);
                    assert(lit_at(s@, js as int, "todos "@));
                    assert(j3 as int == js + 6);
                    assert(nat_at(s@, j3 as int, m.todos.len()));
                    lemma_nat_at_pin(s@, j3 as int, m.todos.len());
                    assert(nt as nat == m.todos.len());
                    assert(j4 as int == j3 + enc_nat(m.todos.len()).len());
                    assert(lit_at(s@, j4 as int, "\n"@));
                    assert(jt0 as int == j4 + 1);
                    assert(lit_at(s@, jt0 as int, enc_todos(m.todos)));
                    assert(todos@.map_values(|t: Todo| t@) == m.todos);
                    assert(jt as int == 9 + enc_nat(m.sessions.len()).len() as int + 1 + enc_sessions(m.sessions).len() as int + 6 + enc_nat(m.todos.len()).len() as int + 1 + enc_todos(m.todos).len() as int);
                    assert(lit_at(s@, jt as int, "reminders "@));
                    assert(j5 as int == jt + 10);
                    assert(nat_at(s@, j5 as int, m.reminders.len()));
                    lemma_nat_at_pin(s@, j5 as int, m.reminders.len());
                    assert(nr as nat == m.reminders.len());
                    assert(j6 as int == j5 + enc_nat(m.reminders.len()).len());
                    assert(lit_at(s@, j6 as int, "\n"@));
                    }
                }
            }
            return None;
        },
    };
    let (reminders, jr) = match parse_reminders_list(s, jr0, nr) {
        Some(p) => p,
        None => {
            proof {
                assert forall|m: StoreModel| !store_at(s@, m) by {
                    if store_at(s@, m) {
                    reveal_strlit("sessions ");
                    reveal_strlit("todos ");
                    reveal_strlit("reminders ");
                    reveal_strlit("\n");
                    lemma_store_at_parts(s@, m);
                    assert(j1 as int == 9);
                    assert(nat_at(s@, 9, m.sessions.len()));
                    lemma_nat_at_pin(s@, 9, m.sessions.len());
                    assert(ns as nat == m.sessions.len());
                    assert(j2 as int == 9 + enc_nat(m.sessions.len()).len());
                    assert(lit_at(s@, j2 as int, "\n"@));
                    assert(js0 as int == j2 + 1);
                    assert(lit_at(s@, js0 as int, enc_sessions(m.sessions)));
                    assert(sessions@.map_values(|t: StudySession| t@) == m.sessions);
                    assert(js as int == 9 + enc_nat(m.sessions.len()).len() as int + 1 + enc_sessions(m.sessions).len() as int);
                    assert(lit_at(s@, js as int, "todos "@));
                    assert(j3 as int == js + 6);
                    assert(nat_at(s@, j3 as int, m.todos.len()));
                    lemma_nat_at_pin(s@, j3 as int, m.todos.len());
                    assert(nt as nat == m.todos.len());
                    assert(j4 as int == j3 + enc_nat(m.todos.len()).len());
                    assert(lit_at(s@, j4 as int, "\n"@));
                    assert(jt0 as int == j4 + 1);
                    assert(lit_at(s@, jt0 as int, enc_todos(m.todos)));
                    assert(todos@.map_values(|t: Todo| t@) == m.todos);
                    assert(jt as int == 9 + enc_nat(m.sessions.len()).len() as int + 1 + enc_sessions(m.sessions).len() as int + 6 + enc_nat(m.todos.len()).len() as int + 1 + enc_todos(m.todos).len() as int);
                    assert(lit_at(s@, jt as int, "reminders "@));
                    assert(j5 as int == jt + 10);
                    assert(nat_at(s@, j5 as int, m.reminders.len()));
                    lemma_nat_at_pin(s@, j5 as int, m.reminders.len());
                    assert(nr as nat == m.reminders.len());
                    assert(j6 as int == j5 + enc_nat(m.reminders.len()).len());
                    assert(lit_at(s@, j6 as int, "\n"@));
                    assert(jr0 as int == j6 + 1);
                    assert(lit_at(s@, jr0 as int, enc_reminders(m.reminders)));
                    }
                }
            }
            return None;
        },
    };
    if jr != n {
        proof {
            assert forall|m: StoreModel| !store_at(s@, m) by {
                if store_at(s@, m) {
                reveal_strlit("sessions ");
                reveal_strlit("todos ");
                reveal_strlit("reminders ");
                reveal_strlit("\n");
                lemma_store_at_parts(s@, m);
                assert(j1 as int == 9);
                assert(nat_at(s@, 9, m.sessions.len()));
                lemma_nat_at_pin(s@, 9, m.sessions.len());
                assert(ns as nat == m.sessions.len());
                assert(j2 as int == 9 + enc_nat(m.sessions.len()).len());
                assert(lit_at(s@, j2 as int, "\n"@));
                assert(js0 as int == j2 + 1);
                assert(lit_at(s@, js0 as int, enc_sessions(m.sessions)));
                assert(sessions@.map_values(|t: StudySession| t@) == m.sessions);
                assert(js as int == 9 + enc_nat(m.sessions.len()).len() as int + 1 + enc_sessions(m.sessions).len() as int);
                assert(lit_at(s@, js as int, "todos "@));
                assert(j3 as int == js + 6);
                assert(nat_at(s@, j3 as int, m.todos.len()));
                lemma_nat_at_pin(s@, j3 as int, m.todos.len());
                assert(nt as nat == m.todos.len());
                assert(j4 as int == j3 + enc_nat(m.todos.len()).len());
                assert(lit_at(s@, j4 as int, "\n"@));
                assert(jt0 as int == j4 + 1);
                assert(lit_at(s@, jt0 as int, enc_todos(m.todos)));
                assert(todos@.map_values(|t: Todo| t@) == m.todos);
                assert(jt as int == 9 + enc_nat(m.sessions.len()).len() as int + 1 + enc_sessions(m.sessions).len() as int + 6 + enc_nat(m.todos.len()).len() as int + 1 + enc_todos(m.todos).len() as int);
                assert(lit_at(s@, jt as int, "reminders "@));
                assert(j5 as int == jt + 10);
                assert(nat_at(s@, j5 as int, m.reminders.len()));
                lemma_nat_at_pin(s@, j5 as int, m.reminders.len());
                assert(nr as nat == m.reminders.len());
                assert(j6 as int == j5 + enc_nat(m.reminders.len()).len());
                assert(lit_at(s@, j6 as int, "\n"@));
                assert(jr0 as int == j6 + 1);
                assert(lit_at(s@, jr0 as int, enc_reminders(m.reminders)));
                assert(reminders@.map_values(|t: Reminder| t@) == m.reminders);
                assert(jr as int == 9 + enc_nat(m.sessions.len()).len() as int + 1 + enc_sessions(m.sessions).len() as int + 6 + enc_nat(m.todos.len()).len() as int + 1 + enc_todos(m.todos).len() as int + 10 + enc_nat(m.reminders.len()).len() as int + 1 + enc_reminders(m.reminders).len());
                assert(jr as int == s@.len());
                }
            }
        }
        return None;
    }
    let d = StudyData { sessions, todos, reminders };
    proof {
        assert forall|m: StoreModel| store_at(s@, m) implies d@ == m by {
            reveal_strlit("sessions ");
            reveal_strlit("todos ");
            reveal_strlit("reminders ");
            reveal_strlit("\n");
            lemma_store_at_parts(s@, m);
            assert(j1 as int == 9);
            assert(nat_at(s@, 9, m.sessions.len()));
            lemma_nat_at_pin(s@, 9, m.sessions.len());
            assert(ns as nat == m.sessions.len());
            assert(j2 as int == 9 + enc_nat(m.sessions.len()).len());
            assert(lit_at(s@, j2 as int, "\n"@));
            assert(js0 as int == j2 + 1);
            assert(lit_at(s@, js0 as int, enc_sessions(m.sessions)));
            assert(sessions@.map_values(|t: StudySession| t@) == m.sessions);
            assert(js as int == 9 + enc_nat(m.sessions.len()).len() as int + 1 + enc_sessions(m.sessions).len() as int);
            assert(lit_at(s@, js as int, "todos "@));
            assert(j3 as int == js + 6);
            assert(nat_at(s@, j3 as int, m.todos.len()));
            lemma_nat_at_pin(s@, j3 as int, m.todos.len());
            assert(nt as nat == m.todos.len());
            assert(j4 as int == j3 + enc_nat(m.todos.len()).len());
            assert(lit_at(s@, j4 as int, "\n"@));
            assert(jt0 as int == j4 + 1);
            assert(lit_at(s@, jt0 as int, enc_todos(m.todos)));
            assert(todos@.map_values(|t: Todo| t@) == m.todos);
            assert(jt as int == 9 + enc_nat(m.sessions.len()).len() as int + 1 + enc_sessions(m.sessions).len() as int + 6 + enc_nat(m.todos.len()).len() as int + 1 + enc_todos(m.todos).len() as int);
            assert(lit_at(s@, jt as int, "reminders "@));
            assert(j5 as int == jt + 10);
            assert(nat_at(s@, j5 as int, m.reminders.len()));
            lemma_nat_at_pin(s@, j5 as int, m.reminders.len());
            assert(nr as nat == m.reminders.len());
            assert(j6 as int == j5 + enc_nat(m.reminders.len()).len());
            assert(lit_at(s@, j6 as int, "\n"@));
            assert(jr0 as int == j6 + 1);
            assert(lit_at(s@, jr0 as int, enc_reminders(m.reminders)));
            assert(sessions@.map_values(|t: StudySession| t@) == m.sessions);
            assert(todos@.map_values(|t: Todo| t@) == m.todos);
            assert(reminders@.map_values(|t: Reminder| t@) == m.reminders);
            assert(d@.sessions == m.sessions);
            assert(d@.todos == m.todos);
            assert(d@.reminders == m.reminders);
        }
    }
    Some(d)
}

impl StudyData {
    /// Read a store back from its persisted text. The text is accepted
    /// exactly when it is the canonical text of some store, and then the
    /// result is that store: the canonical text of every store loads
    /// successfully as that store, field for field, and on success the
    /// input equals `spec_ser` of what was read, so re-saving reproduces
    /// the text character for character. Anything else is a `ReadError`.
    pub fn from_text(s: &str) -> (r: Result<StudyData, PersistenceError>)
        ensures
            r matches Ok(d) ==> s@ == spec_ser(d@),
            r matches Err(e) ==> e == PersistenceError::ReadError,
            forall|m: StoreModel|
                s@ == #[trigger] spec_ser(m) ==> (r matches Ok(d) && d@ == m),
    {
        let parsed = match parse_store(s) {
            Some(d) => d,
            None => {
                proof {
                    assert forall|m: StoreModel| s@ != spec_ser(m) by {
                        if s@ == spec_ser(m) {
                            assert(store_at(s@, m));
                        }
                    }
                }
                return Err(PersistenceError::ReadError);
            },
        };
        let back = parsed.to_text();
        if str_eq(back.as_str(), s) {
            proof {
                assert forall|m: StoreModel| s@ == spec_ser(m) implies parsed@ == m by {
                    assert(store_at(s@, m));
                }
            }
            Ok(parsed)
        } else {
            proof {
                assert forall|m: StoreModel| s@ != spec_ser(m) by {
                    if s@ == spec_ser(m) {
                        assert(store_at(s@, m));
                        assert(parsed@ == m);
                        assert(back@ == s@);
                    }
                }
            }
            Err(PersistenceError::ReadError)
        }
    }
}

/// Whether `c` is a decimal digit.
pub open spec fn is_digit_char(c: char) -> bool {
    c == '0' || c == '1' || c == '2' || c == '3' || c == '4' || c == '5' || c == '6' || c == '7'
        || c == '8' || c == '9'
}

/// Value of a digit character.
pub open spec fn digit_val(c: char) -> nat {
    if c == '0' {
        0
    } else if c == '1' {
        1
    } else if c == '2' {
        2
    } else if c == '3' {
        3
    } else if c == '4' {
        4
    } else if c == '5' {
        5
    } else if c == '6' {
        6
    } else if c == '7' {
        7
    } else if c == '8' {
        8
    } else if c == '9' {
        9
    } else {
        10
    }
}

pub open spec fn all_digits(ds: Seq<char>) -> bool {
    forall|k: int| 0 <= k < ds.len() ==> is_digit_char(ds[k])
}

/// Numeric value of a digit sequence, most significant first.
pub open spec fn val_of(ds: Seq<char>) -> nat
    decreases ds.len(),
{
    if ds.len() == 0 {
        0
    } else {
        val_of(ds.drop_last()) * 10 + digit_val(ds.last())
    }
}

/// The decimal form of `n` is a nonempty digit sequence whose value is
/// `n` again.
pub proof fn lemma_enc_nat_props(n: nat)
    ensures
        enc_nat(n).len() >= 1,
        all_digits(enc_nat(n)),
        val_of(enc_nat(n)) == n,
    decreases n,
{
    if n < 10 {
        let e = seq![digit_char(n)];
        assert(e.drop_last() =~= Seq::<char>::empty());
        assert(e.last() == digit_char(n));
        assert(val_of(Seq::<char>::empty()) == 0);
        assert(val_of(e) == digit_val(digit_char(n)));
        assert(digit_val(digit_char(n)) == n);
        assert(is_digit_char(digit_char(n)));
    } else {
        lemma_enc_nat_props(n / 10);
        let p = enc_nat(n / 10);
        let e = p.push(digit_char(n % 10));
        assert(e.drop_last() =~= p);
        assert(e.last() == digit_char(n % 10));
        assert(n % 10 < 10);
        assert(digit_val(digit_char(n % 10)) == n % 10);
        vstd::arithmetic::div_mod::lemma_fundamental_div_mod(n as int, 10);
        assert(val_of(e) == (n / 10) * 10 + (n % 10));
        assert forall|k: int| 0 <= k < e.len() implies is_digit_char(e[k]) by {
            if k < e.len() - 1 {
                assert(e[k] == p[k]);
            }
        }
    }
}

/// Two decimal forms followed by non-digits that read the same are the
/// same number with the same remainder.
pub proof fn lemma_enc_nat_determined(x: nat, y: nat, t: Seq<char>, r1: Seq<char>, r2: Seq<char>)
    requires
        enc_nat(x) + r1 == t,
        enc_nat(y) + r2 == t,
        r1.len() > 0 ==> !is_digit_char(r1[0]),
        r2.len() > 0 ==> !is_digit_char(r2[0]),
    ensures
        x == y,
        r1 == r2,
{
    let ex = enc_nat(x);
    let ey = enc_nat(y);
    lemma_enc_nat_props(x);
    lemma_enc_nat_props(y);
    assert((ex + r1).len() == ex.len() + r1.len());
    assert((ey + r2).len() == ey.len() + r2.len());
    if ex.len() < ey.len() {
        assert(r1.len() > 0);
        assert((ex + r1)[ex.len() as int] == r1[0]);
        assert((ey + r2)[ex.len() as int] == ey[ex.len() as int]);
        assert(is_digit_char(ey[ex.len() as int]));
        assert(false);
    } else if ey.len() < ex.len() {
        assert(r2.len() > 0);
        assert((ey + r2)[ey.len() as int] == r2[0]);
        assert((ex + r1)[ey.len() as int] == ex[ey.len() as int]);
        assert(is_digit_char(ex[ey.len() as int]));
        assert(false);
    } else {
        assert((ex + r1).len() == ex.len() + r1.len());
        assert((ey + r2).len() == ey.len() + r2.len());
        assert forall|k: int| 0 <= k < ex.len() implies ex[k] == ey[k] by {
            assert((ex + r1)[k] == ex[k]);
            assert((ey + r2)[k] == ey[k]);
        }
        assert(ex =~= ey);
        assert(x == val_of(ex));
        assert(y == val_of(ey));
        assert forall|k: int| 0 <= k < r1.len() implies r1[k] == r2[k] by {
            assert((ex + r1)[ex.len() + k] == r1[k]);
            assert((ey + r2)[ey.len() + k] == r2[k]);
        }
        assert(r1 =~= r2);
    }
}

/// Dropping an equal prefix of two equal concatenations.
pub proof fn lemma_peel(l: Seq<char>, a: Seq<char>, b: Seq<char>)
    requires
        l + a == l + b,
    ensures
        a == b,
{
    assert((l + a).len() == l.len() + a.len());
    assert((l + b).len() == l.len() + b.len());
    assert(a.len() == b.len());
    assert forall|k: int| 0 <= k < a.len() implies a[k] == b[k] by {
        assert((l + a)[l.len() + k] == a[k]);
        assert((l + b)[l.len() + k] == b[k]);
    }
    assert(a =~= b);
}

/// Concatenation is associative.
pub proof fn seq_assoc(x: Seq<char>, y: Seq<char>, z: Seq<char>)
    ensures
        (x + y) + z == x + (y + z),
{
    assert((x + y) + z =~= x + (y + z));
}

/// Two equal concatenations with equal-length heads split equally.
pub proof fn lemma_split_eq(a: Seq<char>, b: Seq<char>, r1: Seq<char>, r2: Seq<char>)
    requires
        a + r1 == b + r2,
        a.len() == b.len(),
    ensures
        a == b,
        r1 == r2,
{
    assert((a + r1).len() == a.len() + r1.len());
    assert((b + r2).len() == b.len() + r2.len());
    assert forall|k: int| 0 <= k < a.len() implies a[k] == b[k] by {
        assert((a + r1)[k] == a[k]);
        assert((b + r2)[k] == b[k]);
    }
    assert(a =~= b);
    assert forall|k: int| 0 <= k < r1.len() implies r1[k] == r2[k] by {
        assert((a + r1)[a.len() + k] == r1[k]);
        assert((b + r2)[b.len() + k] == r2[k]);
    }
    assert(r1 =~= r2);
}

/// Two encoded strings that read the same are the same string with the
/// same remainder: the length prefix ends at the first non-digit.
pub proof fn lemma_enc_str_determined(u: Seq<char>, v: Seq<char>, r1: Seq<char>, r2: Seq<char>)
    requires
        enc_str(u) + r1 == enc_str(v) + r2,
    ensures
        u == v,
        r1 == r2,
{
    reveal_strlit(":");
    let xu = enc_nat(u.len());
    let xv = enc_nat(v.len());
    seq_assoc(xu + ":"@, u, r1);
    seq_assoc(xu, ":"@, u + r1);
    seq_assoc(xv + ":"@, v, r2);
    seq_assoc(xv, ":"@, v + r2);
    assert(xu + (":"@ + (u + r1)) == xv + (":"@ + (v + r2)));
    assert((":"@ + (u + r1))[0] == ':');
    assert((":"@ + (v + r2))[0] == ':');
    assert(!is_digit_char(':'));
    lemma_enc_nat_determined(
        u.len(),
        v.len(),
        xu + (":"@ + (u + r1)),
        ":"@ + (u + r1),
        ":"@ + (v + r2),
    );
    lemma_peel(":"@, u + r1, v + r2);
    lemma_split_eq(u, v, r1, r2);
}

/// Two encoded booleans that read the same agree: the two spellings
/// differ in their first character.
pub proof fn lemma_enc_bool_determined(b1: bool, b2: bool, r1: Seq<char>, r2: Seq<char>)
    requires
        enc_bool(b1) + r1 == enc_bool(b2) + r2,
    ensures
        b1 == b2,
        r1 == r2,
{
    reveal_strlit("true");
    reveal_strlit("false");
    if b1 != b2 {
        assert((enc_bool(true) + (if b1 { r1 } else { r2 }))[0] == 't');
        assert((enc_bool(false) + (if b1 { r2 } else { r1 }))[0] == 'f');
        assert(false);
    } else {
        lemma_split_eq(enc_bool(b1), enc_bool(b2), r1, r2);
    }
}

/// Two encoded optional strings that read the same agree: the absent
/// marker and the present marker differ in their first character.
pub proof fn lemma_enc_opt_determined(
    o1: Option<Seq<char>>,
    o2: Option<Seq<char>>,
    r1: Seq<char>,
    r2: Seq<char>,
)
    requires
        enc_opt(o1) + r1 == enc_opt(o2) + r2,
    ensures
        o1 == o2,
        r1 == r2,
{
    reveal_strlit("none");
    reveal_strlit("some ");
    match (o1, o2) {
        (None, None) => {
            lemma_peel("none"@, r1, r2);
        },
        (Some(u), Some(v)) => {
            seq_assoc("some "@, enc_str(u), r1);
            seq_assoc("some "@, enc_str(v), r2);
            lemma_peel("some "@, enc_str(u) + r1, enc_str(v) + r2);
            lemma_enc_str_determined(u, v, r1, r2);
        },
        (None, Some(v)) => {
            assert((enc_opt(o1) + r1)[0] == 'n');
            seq_assoc("some "@, enc_str(v), r2);
            assert((enc_opt(o2) + r2)[0] == ("some "@ + (enc_str(v) + r2))[0]);
            assert((enc_opt(o2) + r2)[0] == 's');
            assert(false);
        },
        (Some(u), None) => {
            assert((enc_opt(o2) + r2)[0] == 'n');
            seq_assoc("some "@, enc_str(u), r1);
            assert((enc_opt(o1) + r1)[0] == ("some "@ + (enc_str(u) + r1))[0]);
            assert((enc_opt(o1) + r1)[0] == 's');
            assert(false);
        },
    }
}

/// Two encoded lead-time markers followed by non-digits that read the
/// same agree: no tag is a prefix of another.
pub proof fn lemma_enc_period_determined(
    p1: NotificationPeriod,
    p2: NotificationPeriod,
    r1: Seq<char>,
    r2: Seq<char>,
)
    requires
        enc_period(p1) + r1 == enc_period(p2) + r2,
        r1.len() > 0 ==> !is_digit_char(r1[0]),
        r2.len() > 0 ==> !is_digit_char(r2[0]),
    ensures
        p1 == p2,
        r1 == r2,
{
    reveal_strlit("one_day");
    reveal_strlit("three_days");
    reveal_strlit("one_week");
    reveal_strlit("custom ");
    let e1 = enc_period(p1);
    let e2 = enc_period(p2);
    assert((e1 + r1).len() == e1.len() + r1.len());
    assert((e2 + r2).len() == e2.len() + r2.len());
    match (p1, p2) {
        (NotificationPeriod::OneDay, NotificationPeriod::OneDay) => {
            lemma_peel(e1, r1, r2);
        },
        (NotificationPeriod::ThreeDays, NotificationPeriod::ThreeDays) => {
            lemma_peel(e1, r1, r2);
        },
        (NotificationPeriod::OneWeek, NotificationPeriod::OneWeek) => {
            lemma_peel(e1, r1, r2);
        },
        (NotificationPeriod::Custom(d1), NotificationPeriod::Custom(d2)) => {
            seq_assoc("custom "@, enc_nat(d1 as nat), r1);
            seq_assoc("custom "@, enc_nat(d2 as nat), r2);
            lemma_peel("custom "@, enc_nat(d1 as nat) + r1, enc_nat(d2 as nat) + r2);
            lemma_enc_nat_determined(
                d1 as nat,
                d2 as nat,
                enc_nat(d1 as nat) + r1,
                r1,
                r2,
            );
        },
        (NotificationPeriod::OneDay, NotificationPeriod::OneWeek) => {
            assert((e1 + r1)[4] == 'd');
            assert((e2 + r2)[4] == 'w');
            assert(false);
        },
        (NotificationPeriod::OneWeek, NotificationPeriod::OneDay) => {
            assert((e1 + r1)[4] == 'w');
            assert((e2 + r2)[4] == 'd');
            assert(false);
        },
        (NotificationPeriod::OneDay, NotificationPeriod::ThreeDays) => {
            assert((e1 + r1)[0] == 'o');
            assert((e2 + r2)[0] == 't');
            assert(false);
        },
        (NotificationPeriod::ThreeDays, NotificationPeriod::OneDay) => {
            assert((e1 + r1)[0] == 't');
            assert((e2 + r2)[0] == 'o');
            assert(false);
        },
        (NotificationPeriod::OneWeek, NotificationPeriod::ThreeDays) => {
            assert((e1 + r1)[0] == 'o');
            assert((e2 + r2)[0] == 't');
            assert(false);
        },
        (NotificationPeriod::ThreeDays, NotificationPeriod::OneWeek) => {
            assert((e1 + r1)[0] == 't');
            assert((e2 + r2)[0] == 'o');
            assert(false);
        },
        (NotificationPeriod::OneDay, NotificationPeriod::Custom(_)) => {
            seq_assoc("custom "@, enc_nat(0), r2);
            assert((e1 + r1)[0] == 'o');
            assert((e2 + r2)[0] == 'c');
            assert(false);
        },
        (NotificationPeriod::Custom(_), NotificationPeriod::OneDay) => {
            assert((e1 + r1)[0] == 'c');
            assert((e2 + r2)[0] == 'o');
            assert(false);
        },
        (NotificationPeriod::ThreeDays, NotificationPeriod::Custom(_)) => {
            assert((e1 + r1)[0] == 't');
            assert((e2 + r2)[0] == 'c');
            assert(false);
        },
        (NotificationPeriod::Custom(_), NotificationPeriod::ThreeDays) => {
            assert((e1 + r1)[0] == 'c');
            assert((e2 + r2)[0] == 't');
            assert(false);
        },
        (NotificationPeriod::OneWeek, NotificationPeriod::Custom(_)) => {
            assert((e1 + r1)[0] == 'o');
            assert((e2 + r2)[0] == 'c');
            assert(false);
        },
        (NotificationPeriod::Custom(_), NotificationPeriod::OneWeek) => {
            assert((e1 + r1)[0] == 'c');
            assert((e2 + r2)[0] == 'o');
            assert(false);
        },
    }
}

/// A nonempty marker list's text begins with the separating space.
proof fn lemma_items_first(ps: Seq<NotificationPeriod>)
    ensures
        ps.len() > 0 ==> enc_period_items(ps).len() >= 1 && enc_period_items(ps)[0] == ' ',
    decreases ps.len(),
{
    reveal_strlit(" ");
    if ps.len() > 0 {
        let dl = ps.drop_last();
        lemma_items_first(dl);
        let t = (enc_period_items(dl) + " "@) + enc_period(ps.last());
        if dl.len() == 0 {
            assert(enc_period_items(dl).len() == 0);
            assert((enc_period_items(dl) + " "@)[0] == " "@[0]);
            assert(t[0] == ' ');
        } else {
            assert((enc_period_items(dl) + " "@)[0] == enc_period_items(dl)[0]);
            assert(t[0] == ' ');
        }
    }
}

/// Two equally long encoded marker lists that read the same agree.
proof fn lemma_enc_period_items_determined(
    ps1: Seq<NotificationPeriod>,
    ps2: Seq<NotificationPeriod>,
    r1: Seq<char>,
    r2: Seq<char>,
)
    requires
        enc_period_items(ps1) + r1 == enc_period_items(ps2) + r2,
        ps1.len() == ps2.len(),
        r1.len() > 0 ==> !is_digit_char(r1[0]),
        r2.len() > 0 ==> !is_digit_char(r2[0]),
    ensures
        ps1 == ps2,
        r1 == r2,
    decreases ps1.len(),
{
    reveal_strlit(" ");
    if ps1.len() == 0 {
        assert(enc_period_items(ps1) + r1 =~= r1);
        assert(enc_period_items(ps2) + r2 =~= r2);
        assert(ps1 =~= ps2);
    } else {
        let dl1 = ps1.drop_last();
        let dl2 = ps2.drop_last();
        let l1 = ps1.last();
        let l2 = ps2.last();
        seq_assoc(enc_period_items(dl1) + " "@, enc_period(l1), r1);
        seq_assoc(enc_period_items(dl1), " "@, enc_period(l1) + r1);
        seq_assoc(enc_period_items(dl2) + " "@, enc_period(l2), r2);
        seq_assoc(enc_period_items(dl2), " "@, enc_period(l2) + r2);
        let t1 = " "@ + (enc_period(l1) + r1);
        let t2 = " "@ + (enc_period(l2) + r2);
        assert(enc_period_items(dl1) + t1 == enc_period_items(dl2) + t2);
        assert(t1[0] == ' ');
        assert(t2[0] == ' ');
        lemma_enc_period_items_determined(dl1, dl2, t1, t2);
        lemma_peel(" "@, enc_period(l1) + r1, enc_period(l2) + r2);
        lemma_enc_period_determined(l1, l2, r1, r2);
        assert(ps1 =~= dl1.push(l1));
        assert(ps2 =~= dl2.push(l2));
    }
}

/// Two encoded marker lists followed by non-digits that read the same
/// agree: the leading count pins the length.
proof fn lemma_enc_periods_determined(
    ps1: Seq<NotificationPeriod>,
    ps2: Seq<NotificationPeriod>,
    r1: Seq<char>,
    r2: Seq<char>,
)
    requires
        enc_periods(ps1) + r1 == enc_periods(ps2) + r2,
        r1.len() > 0 ==> !is_digit_char(r1[0]),
        r2.len() > 0 ==> !is_digit_char(r2[0]),
    ensures
        ps1 == ps2,
        r1 == r2,
{
    seq_assoc(enc_nat(ps1.len()), enc_period_items(ps1), r1);
    seq_assoc(enc_nat(ps2.len()), enc_period_items(ps2), r2);
    let t1 = enc_period_items(ps1) + r1;
    let t2 = enc_period_items(ps2) + r2;
    lemma_items_first(ps1);
    lemma_items_first(ps2);
    if ps1.len() > 0 {
        assert(t1[0] == enc_period_items(ps1)[0]);
        assert(!is_digit_char(t1[0]));
    } else {
        assert(t1 =~= r1);
    }
    if ps2.len() > 0 {
        assert(t2[0] == enc_period_items(ps2)[0]);
        assert(!is_digit_char(t2[0]));
    } else {
        assert(t2 =~= r2);
    }
    lemma_enc_nat_determined(ps1.len(), ps2.len(), enc_nat(ps1.len()) + t1, t1, t2);
    lemma_enc_period_items_determined(ps1, ps2, r1, r2);
}

/// Two encoded sessions that read the same agree field for field.
proof fn lemma_enc_session_determined(
    x: SessionModel,
    y: SessionModel,
    r1: Seq<char>,
    r2: Seq<char>,
)
    requires
        enc_session(x) + r1 == enc_session(y) + r2,
    ensures
        x == y,
        r1 == r2,
{
    reveal_strlit("date ");
    reveal_strlit(" minutes ");
    reveal_strlit(" description ");
    reveal_strlit("\n");
    let a = "date "@;
    let c = " minutes "@;
    let e = " description "@;
    let g = "\n"@;
    let bx = enc_str(x.date);
    let dx = enc_nat(x.minutes as nat);
    let fx = enc_opt(x.description);
    let by = enc_str(y.date);
    let dy = enc_nat(y.minutes as nat);
    let fy = enc_opt(y.description);
    seq_assoc(((((a + bx) + c) + dx) + e) + fx, g, r1);
    seq_assoc((((a + bx) + c) + dx) + e, fx, g + r1);
    seq_assoc(((a + bx) + c) + dx, e, fx + (g + r1));
    seq_assoc((a + bx) + c, dx, e + (fx + (g + r1)));
    seq_assoc(a + bx, c, dx + (e + (fx + (g + r1))));
    seq_assoc(a, bx, c + (dx + (e + (fx + (g + r1)))));
    seq_assoc(((((a + by) + c) + dy) + e) + fy, g, r2);
    seq_assoc((((a + by) + c) + dy) + e, fy, g + r2);
    seq_assoc(((a + by) + c) + dy, e, fy + (g + r2));
    seq_assoc((a + by) + c, dy, e + (fy + (g + r2)));
    seq_assoc(a + by, c, dy + (e + (fy + (g + r2))));
    seq_assoc(a, by, c + (dy + (e + (fy + (g + r2)))));
    lemma_peel(a, bx + (c + (dx + (e + (fx + (g + r1))))), by + (c + (dy + (e + (fy + (g + r2))))));
    lemma_enc_str_determined(
        x.date,
        y.date,
        c + (dx + (e + (fx + (g + r1)))),
        c + (dy + (e + (fy + (g + r2)))),
    );
    lemma_peel(c, dx + (e + (fx + (g + r1))), dy + (e + (fy + (g + r2))));
    assert((e + (fx + (g + r1)))[0] == ' ');
    assert((e + (fy + (g + r2)))[0] == ' ');
    lemma_enc_nat_determined(
        x.minutes as nat,
        y.minutes as nat,
        dx + (e + (fx + (g + r1))),
        e + (fx + (g + r1)),
        e + (fy + (g + r2)),
    );
    lemma_peel(e, fx + (g + r1), fy + (g + r2));
    lemma_enc_opt_determined(x.description, y.description, g + r1, g + r2);
    lemma_peel(g, r1, r2);
    assert(x.minutes == y.minutes);
}

/// Two equally long encoded session lists that read the same agree.
proof fn lemma_enc_sessions_determined(
    ss1: Seq<SessionModel>,
    ss2: Seq<SessionModel>,
    r1: Seq<char>,
    r2: Seq<char>,
)
    requires
        enc_sessions(ss1) + r1 == enc_sessions(ss2) + r2,
        ss1.len() == ss2.len(),
    ensures
        ss1 == ss2,
        r1 == r2,
    decreases ss1.len(),
{
    if ss1.len() == 0 {
        assert(enc_sessions(ss1) + r1 =~= r1);
        assert(enc_sessions(ss2) + r2 =~= r2);
        assert(ss1 =~= ss2);
    } else {
        let dl1 = ss1.drop_last();
        let dl2 = ss2.drop_last();
        seq_assoc(enc_sessions(dl1), enc_session(ss1.last()), r1);
        seq_assoc(enc_sessions(dl2), enc_session(ss2.last()), r2);
        lemma_enc_sessions_determined(
            dl1,
            dl2,
            enc_session(ss1.last()) + r1,
            enc_session(ss2.last()) + r2,
        );
        lemma_enc_session_determined(ss1.last(), ss2.last(), r1, r2);
        assert(ss1 =~= dl1.push(ss1.last()));
        assert(ss2 =~= dl2.push(ss2.last()));
    }
}

/// Two encoded todos that read the same agree field for field.
proof fn lemma_enc_todo_determined(x: TodoModel, y: TodoModel, r1: Seq<char>, r2: Seq<char>)
    requires
        enc_todo(x) + r1 == enc_todo(y) + r2,
    ensures
        x == y,
        r1 == r2,
{
    reveal_strlit("id ");
    reveal_strlit(" text ");
    reveal_strlit(" completed ");
    reveal_strlit(" created_at ");
    reveal_strlit("\n");
    let a = "id "@;
    let c = " text "@;
    let e = " completed "@;
    let g = " created_at "@;
    let i = "\n"@;
    let bx = enc_nat(x.id as nat);
    let dx = enc_str(x.text);
    let fx = enc_bool(x.completed);
    let hx = enc_str(x.created_at);
    let by = enc_nat(y.id as nat);
    let dy = enc_str(y.text);
    let fy = enc_bool(y.completed);
    let hy = enc_str(y.created_at);
    seq_assoc(((((((a + bx) + c) + dx) + e) + fx) + g) + hx, i, r1);
    seq_assoc((((((a + bx) + c) + dx) + e) + fx) + g, hx, i + r1);
    seq_assoc(((((a + bx) + c) + dx) + e) + fx, g, hx + (i + r1));
    seq_assoc((((a + bx) + c) + dx) + e, fx, g + (hx + (i + r1)));
    seq_assoc(((a + bx) + c) + dx, e, fx + (g + (hx + (i + r1))));
    seq_assoc((a + bx) + c, dx, e + (fx + (g + (hx + (i + r1)))));
    seq_assoc(a + bx, c, dx + (e + (fx + (g + (hx + (i + r1))))));
    seq_assoc(a, bx, c + (dx + (e + (fx + (g + (hx + (i + r1)))))));
    seq_assoc(((((((a + by) + c) + dy) + e) + fy) + g) + hy, i, r2);
    seq_assoc((((((a + by) + c) + dy) + e) + fy) + g, hy, i + r2);
    seq_assoc(((((a + by) + c) + dy) + e) + fy, g, hy + (i + r2));
    seq_assoc((((a + by) + c) + dy) + e, fy, g + (hy + (i + r2)));
    seq_assoc(((a + by) + c) + dy, e, fy + (g + (hy + (i + r2))));
    seq_assoc((a + by) + c, dy, e + (fy + (g + (hy + (i + r2)))));
    seq_assoc(a + by, c, dy + (e + (fy + (g + (hy + (i + r2))))));
    seq_assoc(a, by, c + (dy + (e + (fy + (g + (hy + (i + r2)))))));
    let tx2 = c + (dx + (e + (fx + (g + (hx + (i + r1))))));
    let ty2 = c + (dy + (e + (fy + (g + (hy + (i + r2))))));
    lemma_peel(a, bx + tx2, by + ty2);
    assert(tx2[0] == ' ');
    assert(ty2[0] == ' ');
    lemma_enc_nat_determined(x.id as nat, y.id as nat, bx + tx2, tx2, ty2);
    lemma_peel(c, dx + (e + (fx + (g + (hx + (i + r1))))), dy + (e + (fy + (g + (hy + (i + r2))))));
    lemma_enc_str_determined(
        x.text,
        y.text,
        e + (fx + (g + (hx + (i + r1)))),
        e + (fy + (g + (hy + (i + r2)))),
    );
    lemma_peel(e, fx + (g + (hx + (i + r1))), fy + (g + (hy + (i + r2))));
    lemma_enc_bool_determined(x.completed, y.completed, g + (hx + (i + r1)), g + (hy + (i + r2)));
    lemma_peel(g, hx + (i + r1), hy + (i + r2));
    lemma_enc_str_determined(x.created_at, y.created_at, i + r1, i + r2);
    lemma_peel(i, r1, r2);
    assert(x.id == y.id);
}

/// Two equally long encoded todo lists that read the same agree.
proof fn lemma_enc_todos_determined(
    ts1: Seq<TodoModel>,
    ts2: Seq<TodoModel>,
    r1: Seq<char>,
    r2: Seq<char>,
)
    requires
        enc_todos(ts1) + r1 == enc_todos(ts2) + r2,
        ts1.len() == ts2.len(),
    ensures
        ts1 == ts2,
        r1 == r2,
    decreases ts1.len(),
{
    if ts1.len() == 0 {
        assert(enc_todos(ts1) + r1 =~= r1);
        assert(enc_todos(ts2) + r2 =~= r2);
        assert(ts1 =~= ts2);
    } else {
        let dl1 = ts1.drop_last();
        let dl2 = ts2.drop_last();
        seq_assoc(enc_todos(dl1), enc_todo(ts1.last()), r1);
        seq_assoc(enc_todos(dl2), enc_todo(ts2.last()), r2);
        lemma_enc_todos_determined(dl1, dl2, enc_todo(ts1.last()) + r1, enc_todo(ts2.last()) + r2);
        lemma_enc_todo_determined(ts1.last(), ts2.last(), r1, r2);
        assert(ts1 =~= dl1.push(ts1.last()));
        assert(ts2 =~= dl2.push(ts2.last()));
    }
}

/// Two encoded reminders that read the same agree field for field.
proof fn lemma_enc_reminder_determined(
    x: ReminderModel,
    y: ReminderModel,
    r1: Seq<char>,
    r2: Seq<char>,
)
    requires
        enc_reminder(x) + r1 == enc_reminder(y) + r2,
    ensures
        x == y,
        r1 == r2,
{
    reveal_strlit("id ");
    reveal_strlit(" title ");
    reveal_strlit(" description ");
    reveal_strlit(" due_date ");
    reveal_strlit(" created_at ");
    reveal_strlit(" notification_periods ");
    reveal_strlit(" is_completed ");
    reveal_strlit("\n");
    let a = "id "@;
    let c = " title "@;
    let e = " description "@;
    let g = " due_date "@;
    let i = " created_at "@;
    let k = " notification_periods "@;
    let m = " is_completed "@;
    let o = "\n"@;
    let bx = enc_nat(x.id as nat);
    let dx = enc_str(x.title);
    let fx = enc_opt(x.description);
    let hx = enc_str(x.due_date);
    let jx = enc_str(x.created_at);
    let lx = enc_periods(x.notification_periods);
    let nx = enc_bool(x.is_completed);
    let by = enc_nat(y.id as nat);
    let dy = enc_str(y.title);
    let fy = enc_opt(y.description);
    let hy = enc_str(y.due_date);
    let jy = enc_str(y.created_at);
    let ly = enc_periods(y.notification_periods);
    let ny = enc_bool(y.is_completed);
    let tx14 = o + r1;
    let tx13 = nx + tx14;
    let tx12 = m + tx13;
    let tx11 = lx + tx12;
    let tx10 = k + tx11;
    let tx9 = jx + tx10;
    let tx8 = i + tx9;
    let tx7 = hx + tx8;
    let tx6 = g + tx7;
    let tx5 = fx + tx6;
    let tx4 = e + tx5;
    let tx3 = dx + tx4;
    let tx2 = c + tx3;
    let tx1 = bx + tx2;
    let ty14 = o + r2;
    let ty13 = ny + ty14;
    let ty12 = m + ty13;
    let ty11 = ly + ty12;
    let ty10 = k + ty11;
    let ty9 = jy + ty10;
    let ty8 = i + ty9;
    let ty7 = hy + ty8;
    let ty6 = g + ty7;
    let ty5 = fy + ty6;
    let ty4 = e + ty5;
    let ty3 = dy + ty4;
    let ty2 = c + ty3;
    let ty1 = by + ty2;
    seq_assoc(
        ((((((((((((a + bx) + c) + dx) + e) + fx) + g) + hx) + i) + jx) + k) + lx) + m) + nx,
        o,
        r1,
    );
    seq_assoc(
        (((((((((((a + bx) + c) + dx) + e) + fx) + g) + hx) + i) + jx) + k) + lx) + m,
        nx,
        tx14,
    );
    seq_assoc(((((((((((a + bx) + c) + dx) + e) + fx) + g) + hx) + i) + jx) + k) + lx, m, tx13);
    seq_assoc((((((((((a + bx) + c) + dx) + e) + fx) + g) + hx) + i) + jx) + k, lx, tx12);
    seq_assoc(((((((((a + bx) + c) + dx) + e) + fx) + g) + hx) + i) + jx, k, tx11);
    seq_assoc((((((((a + bx) + c) + dx) + e) + fx) + g) + hx) + i, jx, tx10);
    seq_assoc(((((((a + bx) + c) + dx) + e) + fx) + g) + hx, i, tx9);
    seq_assoc((((((a + bx) + c) + dx) + e) + fx) + g, hx, tx8);
    seq_assoc(((((a + bx) + c) + dx) + e) + fx, g, tx7);
    seq_assoc((((a + bx) + c) + dx) + e, fx, tx6);
    seq_assoc(((a + bx) + c) + dx, e, tx5);
    seq_assoc((a + bx) + c, dx, tx4);
    seq_assoc(a + bx, c, tx3);
    seq_assoc(a, bx, tx2);
    seq_assoc(
        ((((((((((((a + by) + c) + dy) + e) + fy) + g) + hy) + i) + jy) + k) + ly) + m) + ny,
        o,
        r2,
    );
    seq_assoc(
        (((((((((((a + by) + c) + dy) + e) + fy) + g) + hy) + i) + jy) + k) + ly) + m,
        ny,
        ty14,
    );
    seq_assoc(((((((((((a + by) + c) + dy) + e) + fy) + g) + hy) + i) + jy) + k) + ly, m, ty13);
    seq_assoc((((((((((a + by) + c) + dy) + e) + fy) + g) + hy) + i) + jy) + k, ly, ty12);
    seq_assoc(((((((((a + by) + c) + dy) + e) + fy) + g) + hy) + i) + jy, k, ty11);
    seq_assoc((((((((a + by) + c) + dy) + e) + fy) + g) + hy) + i, jy, ty10);
    seq_assoc(((((((a + by) + c) + dy) + e) + fy) + g) + hy, i, ty9);
    seq_assoc((((((a + by) + c) + dy) + e) + fy) + g, hy, ty8);
    seq_assoc(((((a + by) + c) + dy) + e) + fy, g, ty7);
    seq_assoc((((a + by) + c) + dy) + e, fy, ty6);
    seq_assoc(((a + by) + c) + dy, e, ty5);
    seq_assoc((a + by) + c, dy, ty4);
    seq_assoc(a + by, c, ty3);
    seq_assoc(a, by, ty2);
    lemma_peel(a, tx1, ty1);
    assert(tx2[0] == ' ');
    assert(ty2[0] == ' ');
    lemma_enc_nat_determined(x.id as nat, y.id as nat, tx1, tx2, ty2);
    lemma_peel(c, tx3, ty3);
    lemma_enc_str_determined(x.title, y.title, tx4, ty4);
    lemma_peel(e, tx5, ty5);
    lemma_enc_opt_determined(x.description, y.description, tx6, ty6);
    lemma_peel(g, tx7, ty7);
    lemma_enc_str_determined(x.due_date, y.due_date, tx8, ty8);
    lemma_peel(i, tx9, ty9);
    lemma_enc_str_determined(x.created_at, y.created_at, tx10, ty10);
    lemma_peel(k, tx11, ty11);
    assert(tx12[0] == ' ');
    assert(ty12[0] == ' ');
    lemma_enc_periods_determined(
        x.notification_periods,
        y.notification_periods,
        tx12,
        ty12,
    );
    lemma_peel(m, tx13, ty13);
    lemma_enc_bool_determined(x.is_completed, y.is_completed, tx14, ty14);
    lemma_peel(o, r1, r2);
    assert(x.id == y.id);
}

/// Two equally long encoded reminder lists that read the same agree.
proof fn lemma_enc_reminders_determined(
    rs1: Seq<ReminderModel>,
    rs2: Seq<ReminderModel>,
    r1: Seq<char>,
    r2: Seq<char>,
)
    requires
        enc_reminders(rs1) + r1 == enc_reminders(rs2) + r2,
        rs1.len() == rs2.len(),
    ensures
        rs1 == rs2,
        r1 == r2,
    decreases rs1.len(),
{
    if rs1.len() == 0 {
        assert(enc_reminders(rs1) + r1 =~= r1);
        assert(enc_reminders(rs2) + r2 =~= r2);
        assert(rs1 =~= rs2);
    } else {
        let dl1 = rs1.drop_last();
        let dl2 = rs2.drop_last();
        seq_assoc(enc_reminders(dl1), enc_reminder(rs1.last()), r1);
        seq_assoc(enc_reminders(dl2), enc_reminder(rs2.last()), r2);
        lemma_enc_reminders_determined(
            dl1,
            dl2,
            enc_reminder(rs1.last()) + r1,
            enc_reminder(rs2.last()) + r2,
        );
        lemma_enc_reminder_determined(rs1.last(), rs2.last(), r1, r2);
        assert(rs1 =~= dl1.push(rs1.last()));
        assert(rs2 =~= dl2.push(rs2.last()));
    }
}

/// Round-trip uniqueness law. A persisted text is the canonical form of
/// at most one store, so together with the contracts of `to_text` and
/// `from_text` saving a store and reloading the text yields exactly the
/// store that was saved, equal in all fields of its model.
pub proof fn lemma_ser_injective(m1: StoreModel, m2: StoreModel)
    requires
        spec_ser(m1) == spec_ser(m2),
    ensures
        m1 == m2,
{
    reveal_strlit("sessions ");
    reveal_strlit("todos ");
    reveal_strlit("reminders ");
    reveal_strlit("\n");
    let a = "sessions "@;
    let c = "\n"@;
    let e = "todos "@;
    let i = "reminders "@;
    let b1 = enc_nat(m1.sessions.len());
    let d1 = enc_sessions(m1.sessions);
    let f1 = enc_nat(m1.todos.len());
    let h1 = enc_todos(m1.todos);
    let j1 = enc_nat(m1.reminders.len());
    let l1 = enc_reminders(m1.reminders);
    let b2 = enc_nat(m2.sessions.len());
    let d2 = enc_sessions(m2.sessions);
    let f2 = enc_nat(m2.todos.len());
    let h2 = enc_todos(m2.todos);
    let j2 = enc_nat(m2.reminders.len());
    let l2 = enc_reminders(m2.reminders);
    let t1_11 = c + l1;
    let t1_10 = j1 + t1_11;
    let t1_9 = i + t1_10;
    let t1_8 = h1 + t1_9;
    let t1_7 = c + t1_8;
    let t1_6 = f1 + t1_7;
    let t1_5 = e + t1_6;
    let t1_4 = d1 + t1_5;
    let t1_3 = c + t1_4;
    let t1_2 = b1 + t1_3;
    let t2_11 = c + l2;
    let t2_10 = j2 + t2_11;
    let t2_9 = i + t2_10;
    let t2_8 = h2 + t2_9;
    let t2_7 = c + t2_8;
    let t2_6 = f2 + t2_7;
    let t2_5 = e + t2_6;
    let t2_4 = d2 + t2_5;
    let t2_3 = c + t2_4;
    let t2_2 = b2 + t2_3;
    seq_assoc(((((((((a + b1) + c) + d1) + e) + f1) + c) + h1) + i) + j1, c, l1);
    seq_assoc((((((((a + b1) + c) + d1) + e) + f1) + c) + h1) + i, j1, t1_11);
    seq_assoc(((((((a + b1) + c) + d1) + e) + f1) + c) + h1, i, t1_10);
    seq_assoc((((((a + b1) + c) + d1) + e) + f1) + c, h1, t1_9);
    seq_assoc(((((a + b1) + c) + d1) + e) + f1, c, t1_8);
    seq_assoc((((a + b1) + c) + d1) + e, f1, t1_7);
    seq_assoc(((a + b1) + c) + d1, e, t1_6);
    seq_assoc((a + b1) + c, d1, t1_5);
    seq_assoc(a + b1, c, t1_4);
    seq_assoc(a, b1, t1_3);
    seq_assoc(((((((((a + b2) + c) + d2) + e) + f2) + c) + h2) + i) + j2, c, l2);
    seq_assoc((((((((a + b2) + c) + d2) + e) + f2) + c) + h2) + i, j2, t2_11);
    seq_assoc(((((((a + b2) + c) + d2) + e) + f2) + c) + h2, i, t2_10);
    seq_assoc((((((a + b2) + c) + d2) + e) + f2) + c, h2, t2_9);
    seq_assoc(((((a + b2) + c) + d2) + e) + f2, c, t2_8);
    seq_assoc((((a + b2) + c) + d2) + e, f2, t2_7);
    seq_assoc(((a + b2) + c) + d2, e, t2_6);
    seq_assoc((a + b2) + c, d2, t2_5);
    seq_assoc(a + b2, c, t2_4);
    seq_assoc(a, b2, t2_3);
    assert(spec_ser(m1) == a + t1_2);
    assert(spec_ser(m2) == a + t2_2);
    lemma_peel(a, t1_2, t2_2);
    assert(t1_3[0] == '\n');
    assert(t2_3[0] == '\n');
    lemma_enc_nat_determined(m1.sessions.len(), m2.sessions.len(), t1_2, t1_3, t2_3);
    lemma_peel(c, t1_4, t2_4);
    lemma_enc_sessions_determined(m1.sessions, m2.sessions, t1_5, t2_5);
    lemma_peel(e, t1_6, t2_6);
    assert(t1_7[0] == '\n');
    assert(t2_7[0] == '\n');
    lemma_enc_nat_determined(m1.todos.len(), m2.todos.len(), t1_6, t1_7, t2_7);
    lemma_peel(c, t1_8, t2_8);
    lemma_enc_todos_determined(m1.todos, m2.todos, t1_9, t2_9);
    lemma_peel(i, t1_10, t2_10);
    assert(t1_11[0] == '\n');
    assert(t2_11[0] == '\n');
    lemma_enc_nat_determined(m1.reminders.len(), m2.reminders.len(), t1_10, t1_11, t2_11);
    lemma_peel(c, l1, l2);
    assert(l1 + Seq::<char>::empty() =~= l1);
    assert(l2 + Seq::<char>::empty() =~= l2);
    lemma_enc_reminders_determined(
        m1.reminders,
        m2.reminders,
        Seq::<char>::empty(),
        Seq::<char>::empty(),
    );
}

} // verus!
