//! Laws of MySQL's slow query log.

use crate::capture::entries::EntryView;
use crate::capture::fraction::fraction_value;
use crate::capture::mysql_slow::{
    all_changed, first_offset, first_space, insert_by_offset, is_server_header, mysql_timestamp, query_time,
    set_timestamp_secs, signed_number, slow_step, sorted_by_offset, user_host, without_semicolons,
    ChangeModel, SlowModel,
};
use crate::laws::csv_log::{is_trimmed, law_trim_takes_space_off};
use crate::laws::texts::law_separator_stands_between;
use crate::number::{decimal, law_decimal_read_back, law_decimal_value};
use crate::profile::{SessionView, Timestamp};
use crate::text::{
    find_from, is_digit, is_space, join, lemma_find_from, lemma_rfind_below, match_at, rfind_below,
    starts_with, trim,
};
use vstd::prelude::*;

verus! {

// ── Header lines ────────────────────────────────────────────────────

/// The user and the thread that a header line was written with are read from it.
pub proof fn law_user_and_thread_are_read(user: Seq<char>, host: Seq<char>, n: u64)
    requires
        is_trimmed(user),
        forall|i: int| 0 <= i < user.len() ==> #[trigger] user[i] != '[',
    ensures
        user_host("# User@Host: "@ + user + seq!['['] + host + "Id: "@ + decimal(n as nat)) == Some((user, n)),
{
    let d = decimal(n as nat);
    let rest = user + seq!['['] + host + "Id: "@ + d;
    let line = "# User@Host: "@ + user + seq!['['] + host + "Id: "@ + d;
    reveal_strlit("# User@Host: ");
    reveal_strlit("# User@Host:");
    reveal_strlit("Id: ");
    reveal_strlit("Id:");
    reveal_strlit("[");
    law_decimal_value(n as nat);
    assert(line.subrange(0, 12) =~= "# User@Host:"@);
    let space = seq![' '];
    let none = Seq::<char>::empty();
    assert(line.skip(12) =~= space + rest + none);
    assert(rest[0] == user[0]);
    assert(rest.last() == d.last());
    assert(is_digit(d[d.len() - 1]));
    law_trim_takes_space_off(space, rest, none);
    assert(trim(line.skip(12)) == rest);
    let b = user.len() as int;
    assert(rest.subrange(b, b + 1) =~= "["@);
    lemma_find_from(rest, "["@, 0);
    assert forall|k: int| 0 <= k < b implies !match_at(rest, "["@, k) by {
        assert(rest[k] == user[k]);
        if match_at(rest, "["@, k) {
            assert(rest.subrange(k, k + 1)[0] == rest[k]);
        }
    }
    assert(match_at(rest, "["@, b));
    assert(find_from(rest, "["@, 0) == Some(b));
    assert(rest.take(b) =~= user);
    law_trim_takes_space_off(none, user, none);
    let q = b + 1 + host.len();
    assert(rest.subrange(q, q + 3) =~= "Id:"@);
    lemma_rfind_below(rest, "Id:"@, rest.len() as int);
    assert forall|k: int| q < k implies !match_at(rest, "Id:"@, k) by {
        if match_at(rest, "Id:"@, k) {
            assert(rest.subrange(k, k + 3)[0] == rest[k]);
            if k >= q + 4 {
                assert(rest[k] == d[k - q - 4]);
            }
        }
    }
    assert(match_at(rest, "Id:"@, q));
    assert(rfind_below(rest, "Id:"@, rest.len() as int) == Some(q));
    assert(rest.skip(q + 3) =~= space + d + none);
    assert(is_digit(d[0]));
    law_trim_takes_space_off(space, d, none);
    law_decimal_read_back(n as nat, u64::MAX as nat);
}

proof fn lemma_first_space(s: Seq<char>, i: int, e: int)
    requires
        0 <= i <= e < s.len(),
        is_space(s[e]),
        forall|k: int| i <= k < e ==> !is_space(#[trigger] s[k]),
    ensures
        first_space(s, i) == Some(e),
    decreases e - i,
{
    if i < e {
        assert(!is_space(s[i]));
        lemma_first_space(s, i + 1, e);
    }
}

/// The duration of a statement is the number of seconds behind its name, in
/// microseconds.
pub proof fn law_query_time_is_read(d: Seq<char>, rest: Seq<char>)
    requires
        d.len() > 0,
        forall|i: int| 0 <= i < d.len() ==> !is_space(#[trigger] d[i]),
        is_trimmed(rest),
    ensures
        query_time("# Query_time: "@ + d + seq![' '] + rest) == fraction_value(d, 6, true),
{
    let line = "# Query_time: "@ + d + seq![' '] + rest;
    let body = d + seq![' '] + rest;
    let none = Seq::<char>::empty();
    reveal_strlit("# Query_time: ");
    reveal_strlit("# Query_time:");
    assert(line.subrange(0, 13) =~= "# Query_time:"@);
    assert(line.skip(13) =~= seq![' '] + body + none);
    assert(body[0] == d[0]);
    assert(!is_space(d[0]));
    assert(body.last() == rest.last());
    law_trim_takes_space_off(seq![' '], body, none);
    let e = d.len() as int;
    assert forall|k: int| 0 <= k < e implies !is_space(#[trigger] body[k]) by {
        assert(body[k] == d[k]);
    }
    assert(body[e] == ' ');
    lemma_first_space(body, 0, e);
    assert(body.take(e) =~= d);
}

/// A whole number, negative or not, is read as its value.
pub proof fn law_signed_number_is_read(n: nat)
    ensures
        n <= i64::MAX ==> signed_number(decimal(n)) == Some(n as i64),
        n <= 0x8000_0000_0000_0000 ==> signed_number(seq!['-'] + decimal(n)) == Some((0 - n) as i64),
        n > i64::MAX ==> signed_number(decimal(n)) is None,
        n > 0x8000_0000_0000_0000 ==> signed_number(seq!['-'] + decimal(n)) is None,
{
    law_decimal_value(n);
    let d = decimal(n);
    assert(is_digit(d[0]));
    let s = seq!['-'] + d;
    assert(s[1] == d[0]);
    assert(s.skip(1) =~= d);
    if n <= i64::MAX {
        law_decimal_read_back(n, i64::MAX as nat);
    }
    if n <= 0x8000_0000_0000_0000 {
        law_decimal_read_back(n, 9223372036854775808);
    }
}

/// The seconds that a statement sets as its time are read, with or without a
/// semicolon behind them.
pub proof fn law_set_timestamp_is_read(n: nat)
    requires
        n <= i64::MAX,
    ensures
        set_timestamp_secs("SET timestamp="@ + decimal(n) + seq![';']) == Some(n as i64),
        set_timestamp_secs("SET timestamp="@ + decimal(n)) == Some(n as i64),
{
    law_decimal_value(n);
    law_signed_number_is_read(n);
    reveal_strlit("SET timestamp=");
    let d = decimal(n);
    let none = Seq::<char>::empty();
    assert(is_digit(d[0]) && is_digit(d[d.len() - 1]));
    law_trim_takes_space_off(none, d, none);
    let with = "SET timestamp="@ + d + seq![';'];
    let bare = "SET timestamp="@ + d;
    assert(with.subrange(0, 14) =~= "SET timestamp="@);
    assert(bare.subrange(0, 14) =~= "SET timestamp="@);
    assert(with.skip(14) =~= d.push(';'));
    assert(bare.skip(14) =~= d);
    assert(d.push(';').drop_last() =~= d);
    assert(without_semicolons(d) == d);
    assert(without_semicolons(d.push(';')) == d);
}

// ── Statements ──────────────────────────────────────────────────────

/// A line that is part of a statement.
pub open spec fn is_statement_line(line: Seq<char>) -> bool {
    is_trimmed(line) && line[0] != '#' && !starts_with(line, "/usr/"@) && !starts_with(line, "Tcp port:"@)
        && !starts_with(line, "Time "@) && !starts_with(line, "SET timestamp="@)
}

/// The state after the first `n` lines.
pub open spec fn after_lines(m: SlowModel, ls: Seq<Seq<char>>, now: Timestamp, n: int) -> SlowModel
    decreases n,
{
    if n <= 0 {
        m
    } else {
        slow_step(after_lines(m, ls, now, n - 1), ls[n - 1], now)
    }
}

proof fn lemma_lines_collected(m: SlowModel, ls: Seq<Seq<char>>, now: Timestamp, n: int)
    requires
        0 < n <= ls.len(),
        m.sql_lines.len() == 0,
        forall|i: int| 0 <= i < ls.len() ==> is_statement_line(#[trigger] ls[i]),
    ensures
        after_lines(m, ls, now, n) == (SlowModel { sql_lines: ls.take(n), in_query: true, ..m }),
    decreases n,
{
    reveal_strlit("# Time: ");
    reveal_strlit("# User@Host:");
    reveal_strlit("# Query_time:");
    reveal_strlit("#");
    let line = ls[n - 1];
    assert(is_statement_line(line));
    assert forall|p: Seq<char>| p.len() > 0 && p[0] == '#' implies !(#[trigger] starts_with(line, p)) by {
        if starts_with(line, p) {
            assert(line.subrange(0, p.len() as int)[0] == line[0]);
        }
    }
    reveal_with_fuel(after_lines, 2);
    if n > 1 {
        lemma_lines_collected(m, ls, now, n - 1);
        assert(ls.take(n - 1).push(line) =~= ls.take(n));
    } else {
        assert(after_lines(m, ls, now, 0) == m);
        assert(m.sql_lines.push(line) =~= ls.take(1));
    }
}

proof fn lemma_join_trimmed(ls: Seq<Seq<char>>)
    requires
        ls.len() > 0,
        forall|i: int| 0 <= i < ls.len() ==> is_trimmed(#[trigger] ls[i]),
    ensures
        is_trimmed(join(ls, "\n"@)),
    decreases ls.len(),
{
    assert(is_trimmed(ls[0]));
    assert(is_trimmed(ls[ls.len() - 1]));
    if ls.len() > 1 {
        let front = ls.drop_last();
        assert forall|i: int| 0 <= i < front.len() implies is_trimmed(#[trigger] front[i]) by {
            assert(is_trimmed(ls[i]));
        }
        lemma_join_trimmed(front);
        let j = join(ls, "\n"@);
        assert(j[0] == join(front, "\n"@)[0]);
        assert(j.last() == ls.last().last());
    }
}

/// The lines of a statement, up to an empty line, become one entry: all of them,
/// with a line feed between each two, under the user, the thread, the time and
/// the duration of the header before them.
pub proof fn law_statement_lines_make_an_entry(m: SlowModel, ls: Seq<Seq<char>>, now: Timestamp)
    requires
        m.sql_lines.len() == 0,
        ls.len() > 0,
        forall|i: int| 0 <= i < ls.len() ==> is_statement_line(#[trigger] ls[i]),
    ensures
        ({
            let end = slow_step(after_lines(m, ls, now, ls.len() as int), Seq::empty(), now);
            &&& end.entries.len() == m.entries.len() + 1
            &&& end.entries.drop_last() == m.entries
            &&& end.entries.last().sql == join(ls, "\n"@)
            &&& end.entries.last().user == m.user
            &&& end.entries.last().session == m.thread
            &&& end.entries.last().duration_us == m.query_time_us
            &&& m.time is Some ==> end.entries.last().time == m.time
            &&& m.time is None ==> end.entries.last().time == Some(now)
            &&& end.entries.last().database.len() == 0
            &&& end.entries.last().keep
            &&& end.sql_lines.len() == 0
            &&& !end.in_query
        }),
{
    let n = ls.len() as int;
    lemma_lines_collected(m, ls, now, n);
    assert(ls.take(n) =~= ls);
    assert forall|i: int| 0 <= i < ls.len() implies is_trimmed(#[trigger] ls[i]) by {
        assert(is_statement_line(ls[i]));
    }
    lemma_join_trimmed(ls);
    let none = Seq::<char>::empty();
    law_trim_takes_space_off(none, join(ls, "\n"@), none);
    let end = slow_step(after_lines(m, ls, now, n), none, now);
    assert(end.entries.drop_last() =~= m.entries);
}

/// The lines of a header set the user and the thread, the duration or the time,
/// and leave the entries read so far as they are.
pub proof fn law_header_lines_are_kept(m: SlowModel, line: Seq<char>, t: Seq<char>, now: Timestamp)
    requires
        m.sql_lines.len() == 0,
    ensures
        starts_with(line, "# User@Host:"@) && user_host(line) is Some ==> {
            let (user, thread) = user_host(line)->0;
            slow_step(m, line, now) == (SlowModel { user, thread, ..m })
        },
        starts_with(line, "# Query_time:"@) && query_time(line) is Some ==> slow_step(m, line, now) == (SlowModel {
            query_time_us: query_time(line)->0,
            ..m
        }),
        slow_step(m, "# Time: "@ + t, now) == (SlowModel { time: mysql_timestamp(t), ..m }),
        slow_step(m, Seq::empty(), now) == m,
{
    reveal_strlit("# Time: ");
    reveal_strlit("# User@Host:");
    reveal_strlit("# Query_time:");
    reveal_strlit("/usr/");
    reveal_strlit("Tcp port:");
    reveal_strlit("Time ");
    let l = "# Time: "@ + t;
    assert(l.subrange(0, 8) =~= "# Time: "@);
    assert(l.skip(8) =~= t);
    assert(l[0] == '#');
    assert forall|s: Seq<char>, p: Seq<char>| p.len() > 0 && #[trigger] starts_with(s, p) implies s.len() > 0 && s[0]
        == p[0] by {
        assert(s.subrange(0, p.len() as int)[0] == s[0]);
    }
    if starts_with(line, "# User@Host:"@) || starts_with(line, "# Query_time:"@) {
        assert(line[0] == '#');
        assert(!is_server_header(line));
        if starts_with(line, "# User@Host:"@) {
            assert(line[2] == 'U') by {
                assert(line.subrange(0, 12)[2] == line[2]);
            }
        } else {
            assert(line[2] == 'Q') by {
                assert(line.subrange(0, 13)[2] == line[2]);
            }
        }
        assert(!starts_with(line, "# Time: "@)) by {
            if starts_with(line, "# Time: "@) {
                assert(line.subrange(0, 8)[2] == line[2]);
            }
        }
        if starts_with(line, "# Query_time:"@) && starts_with(line, "# User@Host:"@) {
            assert(line.subrange(0, 12)[2] == line[2]);
            assert(line.subrange(0, 13)[2] == line[2]);
        }
    }
    assert(!is_server_header(l));
}

// ── Changed statements ──────────────────────────────────────────────

/// A changed statement takes the place of the one it was made from, and an entry
/// whose statement was skipped is not kept; nothing else changes.
pub proof fn law_changes_are_applied(es: Seq<EntryView>, cs: Seq<ChangeModel>, i: int)
    requires
        es.len() == cs.len(),
        0 <= i < es.len(),
    ensures
        all_changed(es, cs).len() == es.len(),
        all_changed(es, cs)[i].session == es[i].session,
        all_changed(es, cs)[i].time == es[i].time,
        all_changed(es, cs)[i].user == es[i].user,
        all_changed(es, cs)[i].database == es[i].database,
        all_changed(es, cs)[i].duration_us == es[i].duration_us,
        cs[i] matches ChangeModel::Transformed(sql) ==> all_changed(es, cs)[i].sql == sql,
        !(cs[i] is Transformed) ==> all_changed(es, cs)[i].sql == es[i].sql,
        cs[i] is Skipped ==> !all_changed(es, cs)[i].keep,
        !(cs[i] is Skipped) ==> all_changed(es, cs)[i].keep == es[i].keep,
{
}

// ── Order of the sessions ───────────────────────────────────────────

/// Sessions in the order in which they begin.
pub open spec fn begin_in_order(s: Seq<SessionView>) -> bool {
    forall|i: int, j: int| 0 <= i <= j < s.len() ==> first_offset(#[trigger] s[i]) <= first_offset(#[trigger] s[j])
}

proof fn lemma_inserted(s: Seq<SessionView>, x: SessionView)
    requires
        begin_in_order(s),
    ensures
        begin_in_order(insert_by_offset(s, x)),
        insert_by_offset(s, x).to_multiset() == s.to_multiset().insert(x),
        insert_by_offset(s, x).len() == s.len() + 1,
    decreases s.len(),
{
    broadcast use vstd::seq_lib::group_to_multiset_ensures;

    let r = insert_by_offset(s, x);
    if s.len() == 0 || first_offset(s.last()) <= first_offset(x) {
        assert forall|i: int, j: int| 0 <= i <= j < r.len() implies first_offset(#[trigger] r[i]) <= first_offset(
            #[trigger] r[j],
        ) by {
            if i < s.len() {
                assert(first_offset(s[i]) <= first_offset(s[s.len() - 1]));
            }
        }
    } else {
        let front = s.drop_last();
        lemma_inserted(front, x);
        let q = insert_by_offset(front, x);
        assert(s =~= front.push(s.last()));
        assert(r.to_multiset() =~= s.to_multiset().insert(x));
        assert forall|i: int| 0 <= i < q.len() implies first_offset(#[trigger] q[i]) <= first_offset(s.last()) by {
            assert(q.to_multiset().count(q[i]) > 0) by {
                assert(q.contains(q[i]));
            }
            if q[i] != x {
                assert(front.to_multiset().count(q[i]) > 0);
                assert(front.contains(q[i]));
                let k = choose|k: int| 0 <= k < front.len() && front[k] == q[i];
                assert(first_offset(s[k]) <= first_offset(s[s.len() - 1]));
            }
        }
    }
}

/// Ordering keeps every session and puts none behind one that begins later.
pub proof fn law_sessions_are_ordered(s: Seq<SessionView>)
    ensures
        begin_in_order(sorted_by_offset(s)),
        sorted_by_offset(s).to_multiset() == s.to_multiset(),
        sorted_by_offset(s).len() == s.len(),
    decreases s.len(),
{
    broadcast use vstd::seq_lib::group_to_multiset_ensures;

    if s.len() > 0 {
        law_sessions_are_ordered(s.drop_last());
        lemma_inserted(sorted_by_offset(s.drop_last()), s.last());
        assert(s =~= s.drop_last().push(s.last()));
    }
}

/// Two lines of a statement are told apart by one line feed.
pub proof fn law_lines_stay_apart(first: Seq<char>, second: Seq<char>)
    ensures
        join(seq![first, second], "\n"@) == first + "\n"@ + second,
{
    law_separator_stands_between(seq![first], seq![second], first, "\n"@);
    law_separator_stands_between(seq![first], seq![second], second, "\n"@);
    assert(seq![first] + seq![second] =~= seq![first, second]);
}

} // verus!
