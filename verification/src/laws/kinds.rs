//! Laws of query kinds, transactions and classes.

use crate::classify::{
    average_duration, begin_count, class_of, majority, read_count, total_duration, write_count, ClassCounts,
    WorkloadClass,
};
use crate::profile::{
    kind_of, kind_of_upper, open_txn, txn_count, with_txns, QueryKind, QueryView, SessionView,
};
use crate::text::{ascii_uppercase, is_space, starts_with, trim_start};
use vstd::prelude::*;
use vstd::utf8::is_ascii_chars;

verus! {

// ── Kinds ───────────────────────────────────────────────────────────

proof fn lemma_starts(w: Seq<char>, rest: Seq<char>)
    ensures
        starts_with(w + rest, w),
{
    assert((w + rest).subrange(0, w.len() as int) =~= w);
}

proof fn lemma_not_starts(w: Seq<char>, rest: Seq<char>, v: Seq<char>, i: int)
    requires
        0 <= i < w.len(),
        i < v.len(),
        w[i] != v[i],
    ensures
        !starts_with(w + rest, v),
{
    let s = w + rest;
    if starts_with(s, v) {
        assert(s.subrange(0, v.len() as int)[i] == v[i]);
        assert(s[i] == w[i]);
    }
}

proof fn lemma_words()
    ensures
        "SELECT"@ == seq!['S', 'E', 'L', 'E', 'C', 'T'],
        "WITH"@ == seq!['W', 'I', 'T', 'H'],
        "INSERT"@ == seq!['I', 'N', 'S', 'E', 'R', 'T'],
        "UPDATE"@ == seq!['U', 'P', 'D', 'A', 'T', 'E'],
        "DELETE"@ == seq!['D', 'E', 'L', 'E', 'T', 'E'],
        "CREATE"@ == seq!['C', 'R', 'E', 'A', 'T', 'E'],
        "ALTER"@ == seq!['A', 'L', 'T', 'E', 'R'],
        "DROP"@ == seq!['D', 'R', 'O', 'P'],
        "TRUNCATE"@ == seq!['T', 'R', 'U', 'N', 'C', 'A', 'T', 'E'],
        "BEGIN"@ == seq!['B', 'E', 'G', 'I', 'N'],
        "START TRANSACTION"@ == seq![
            'S',
            'T',
            'A',
            'R',
            'T',
            ' ',
            'T',
            'R',
            'A',
            'N',
            'S',
            'A',
            'C',
            'T',
            'I',
            'O',
            'N',
        ],
        "COMMIT"@ == seq!['C', 'O', 'M', 'M', 'I', 'T'],
        "END"@ == seq!['E', 'N', 'D'],
        "ROLLBACK TO"@ == seq!['R', 'O', 'L', 'L', 'B', 'A', 'C', 'K', ' ', 'T', 'O'],
        "ROLLBACK"@ == seq!['R', 'O', 'L', 'L', 'B', 'A', 'C', 'K'],
        "ABORT"@ == seq!['A', 'B', 'O', 'R', 'T'],
{
    reveal_strlit("SELECT");
    reveal_strlit("WITH");
    reveal_strlit("INSERT");
    reveal_strlit("UPDATE");
    reveal_strlit("DELETE");
    reveal_strlit("CREATE");
    reveal_strlit("ALTER");
    reveal_strlit("DROP");
    reveal_strlit("TRUNCATE");
    reveal_strlit("BEGIN");
    reveal_strlit("START TRANSACTION");
    reveal_strlit("COMMIT");
    reveal_strlit("END");
    reveal_strlit("ROLLBACK TO");
    reveal_strlit("ROLLBACK");
    reveal_strlit("ABORT");
    assert("SELECT"@ =~= seq!['S', 'E', 'L', 'E', 'C', 'T']);
    assert("WITH"@ =~= seq!['W', 'I', 'T', 'H']);
    assert("INSERT"@ =~= seq!['I', 'N', 'S', 'E', 'R', 'T']);
    assert("UPDATE"@ =~= seq!['U', 'P', 'D', 'A', 'T', 'E']);
    assert("DELETE"@ =~= seq!['D', 'E', 'L', 'E', 'T', 'E']);
    assert("CREATE"@ =~= seq!['C', 'R', 'E', 'A', 'T', 'E']);
    assert("ALTER"@ =~= seq!['A', 'L', 'T', 'E', 'R']);
    assert("DROP"@ =~= seq!['D', 'R', 'O', 'P']);
    assert("TRUNCATE"@ =~= seq!['T', 'R', 'U', 'N', 'C', 'A', 'T', 'E']);
    assert("BEGIN"@ =~= seq!['B', 'E', 'G', 'I', 'N']);
    assert("START TRANSACTION"@ =~= seq![
        'S',
        'T',
        'A',
        'R',
        'T',
        ' ',
        'T',
        'R',
        'A',
        'N',
        'S',
        'A',
        'C',
        'T',
        'I',
        'O',
        'N',
    ]);
    assert("COMMIT"@ =~= seq!['C', 'O', 'M', 'M', 'I', 'T']);
    assert("END"@ =~= seq!['E', 'N', 'D']);
    assert("ROLLBACK TO"@ =~= seq!['R', 'O', 'L', 'L', 'B', 'A', 'C', 'K', ' ', 'T', 'O']);
    assert("ROLLBACK"@ =~= seq!['R', 'O', 'L', 'L', 'B', 'A', 'C', 'K']);
    assert("ABORT"@ =~= seq!['A', 'B', 'O', 'R', 'T']);
}

/// Whether a text begins with none of the words that tell a kind.
pub open spec fn begins_otherwise(u: Seq<char>) -> bool {
    &&& !starts_with(u, "SELECT"@)
    &&& !starts_with(u, "WITH"@)
    &&& !starts_with(u, "INSERT"@)
    &&& !starts_with(u, "UPDATE"@)
    &&& !starts_with(u, "DELETE"@)
    &&& !starts_with(u, "CREATE"@)
    &&& !starts_with(u, "ALTER"@)
    &&& !starts_with(u, "DROP"@)
    &&& !starts_with(u, "TRUNCATE"@)
    &&& !starts_with(u, "BEGIN"@)
    &&& !starts_with(u, "START TRANSACTION"@)
    &&& !starts_with(u, "COMMIT"@)
    &&& !starts_with(u, "END"@)
    &&& !starts_with(u, "ROLLBACK"@)
    &&& !starts_with(u, "ABORT"@)
}

proof fn lemma_select(rest: Seq<char>)
    ensures
        kind_of_upper("SELECT"@ + rest) == QueryKind::Select,
{
    lemma_words();
    lemma_starts("SELECT"@, rest);
}

proof fn lemma_insert(rest: Seq<char>)
    ensures
        kind_of_upper("INSERT"@ + rest) == QueryKind::Insert,
{
    lemma_words();
    lemma_starts("INSERT"@, rest);
    lemma_not_starts("INSERT"@, rest, "SELECT"@, 0);
    lemma_not_starts("INSERT"@, rest, "WITH"@, 0);
}

proof fn lemma_update(rest: Seq<char>)
    ensures
        kind_of_upper("UPDATE"@ + rest) == QueryKind::Update,
{
    lemma_words();
    lemma_starts("UPDATE"@, rest);
    lemma_not_starts("UPDATE"@, rest, "SELECT"@, 0);
    lemma_not_starts("UPDATE"@, rest, "WITH"@, 0);
    lemma_not_starts("UPDATE"@, rest, "INSERT"@, 0);
}

proof fn lemma_delete(rest: Seq<char>)
    ensures
        kind_of_upper("DELETE"@ + rest) == QueryKind::Delete,
{
    lemma_words();
    lemma_starts("DELETE"@, rest);
    lemma_not_starts("DELETE"@, rest, "SELECT"@, 0);
    lemma_not_starts("DELETE"@, rest, "WITH"@, 0);
    lemma_not_starts("DELETE"@, rest, "INSERT"@, 0);
    lemma_not_starts("DELETE"@, rest, "UPDATE"@, 0);
}

proof fn lemma_create(rest: Seq<char>)
    ensures
        kind_of_upper("CREATE"@ + rest) == QueryKind::Ddl,
{
    lemma_words();
    lemma_starts("CREATE"@, rest);
    lemma_not_starts("CREATE"@, rest, "SELECT"@, 0);
    lemma_not_starts("CREATE"@, rest, "WITH"@, 0);
    lemma_not_starts("CREATE"@, rest, "INSERT"@, 0);
    lemma_not_starts("CREATE"@, rest, "UPDATE"@, 0);
    lemma_not_starts("CREATE"@, rest, "DELETE"@, 0);
}

proof fn lemma_alter(rest: Seq<char>)
    ensures
        kind_of_upper("ALTER"@ + rest) == QueryKind::Ddl,
{
    lemma_words();
    lemma_starts("ALTER"@, rest);
    lemma_not_starts("ALTER"@, rest, "SELECT"@, 0);
    lemma_not_starts("ALTER"@, rest, "WITH"@, 0);
    lemma_not_starts("ALTER"@, rest, "INSERT"@, 0);
    lemma_not_starts("ALTER"@, rest, "UPDATE"@, 0);
    lemma_not_starts("ALTER"@, rest, "DELETE"@, 0);
    lemma_not_starts("ALTER"@, rest, "CREATE"@, 0);
}

proof fn lemma_drop(rest: Seq<char>)
    ensures
        kind_of_upper("DROP"@ + rest) == QueryKind::Ddl,
{
    lemma_words();
    lemma_starts("DROP"@, rest);
    lemma_not_starts("DROP"@, rest, "SELECT"@, 0);
    lemma_not_starts("DROP"@, rest, "WITH"@, 0);
    lemma_not_starts("DROP"@, rest, "INSERT"@, 0);
    lemma_not_starts("DROP"@, rest, "UPDATE"@, 0);
    lemma_not_starts("DROP"@, rest, "DELETE"@, 1);
    lemma_not_starts("DROP"@, rest, "CREATE"@, 0);
    lemma_not_starts("DROP"@, rest, "ALTER"@, 0);
}

proof fn lemma_truncate(rest: Seq<char>)
    ensures
        kind_of_upper("TRUNCATE"@ + rest) == QueryKind::Ddl,
{
    lemma_words();
    lemma_starts("TRUNCATE"@, rest);
    lemma_not_starts("TRUNCATE"@, rest, "SELECT"@, 0);
    lemma_not_starts("TRUNCATE"@, rest, "WITH"@, 0);
    lemma_not_starts("TRUNCATE"@, rest, "INSERT"@, 0);
    lemma_not_starts("TRUNCATE"@, rest, "UPDATE"@, 0);
    lemma_not_starts("TRUNCATE"@, rest, "DELETE"@, 0);
    lemma_not_starts("TRUNCATE"@, rest, "CREATE"@, 0);
    lemma_not_starts("TRUNCATE"@, rest, "ALTER"@, 0);
    lemma_not_starts("TRUNCATE"@, rest, "DROP"@, 0);
}

proof fn lemma_begin(rest: Seq<char>)
    ensures
        kind_of_upper("BEGIN"@ + rest) == QueryKind::Begin,
{
    lemma_words();
    lemma_starts("BEGIN"@, rest);
    lemma_not_starts("BEGIN"@, rest, "SELECT"@, 0);
    lemma_not_starts("BEGIN"@, rest, "WITH"@, 0);
    lemma_not_starts("BEGIN"@, rest, "INSERT"@, 0);
    lemma_not_starts("BEGIN"@, rest, "UPDATE"@, 0);
    lemma_not_starts("BEGIN"@, rest, "DELETE"@, 0);
    lemma_not_starts("BEGIN"@, rest, "CREATE"@, 0);
    lemma_not_starts("BEGIN"@, rest, "ALTER"@, 0);
    lemma_not_starts("BEGIN"@, rest, "DROP"@, 0);
    lemma_not_starts("BEGIN"@, rest, "TRUNCATE"@, 0);
}

proof fn lemma_start_transaction(rest: Seq<char>)
    ensures
        kind_of_upper("START TRANSACTION"@ + rest) == QueryKind::Begin,
{
    lemma_words();
    lemma_starts("START TRANSACTION"@, rest);
    lemma_not_starts("START TRANSACTION"@, rest, "SELECT"@, 1);
    lemma_not_starts("START TRANSACTION"@, rest, "WITH"@, 0);
    lemma_not_starts("START TRANSACTION"@, rest, "INSERT"@, 0);
    lemma_not_starts("START TRANSACTION"@, rest, "UPDATE"@, 0);
    lemma_not_starts("START TRANSACTION"@, rest, "DELETE"@, 0);
    lemma_not_starts("START TRANSACTION"@, rest, "CREATE"@, 0);
    lemma_not_starts("START TRANSACTION"@, rest, "ALTER"@, 0);
    lemma_not_starts("START TRANSACTION"@, rest, "DROP"@, 0);
    lemma_not_starts("START TRANSACTION"@, rest, "TRUNCATE"@, 0);
    lemma_not_starts("START TRANSACTION"@, rest, "BEGIN"@, 0);
}

proof fn lemma_commit(rest: Seq<char>)
    ensures
        kind_of_upper("COMMIT"@ + rest) == QueryKind::Commit,
{
    lemma_words();
    lemma_starts("COMMIT"@, rest);
    lemma_not_starts("COMMIT"@, rest, "SELECT"@, 0);
    lemma_not_starts("COMMIT"@, rest, "WITH"@, 0);
    lemma_not_starts("COMMIT"@, rest, "INSERT"@, 0);
    lemma_not_starts("COMMIT"@, rest, "UPDATE"@, 0);
    lemma_not_starts("COMMIT"@, rest, "DELETE"@, 0);
    lemma_not_starts("COMMIT"@, rest, "CREATE"@, 1);
    lemma_not_starts("COMMIT"@, rest, "ALTER"@, 0);
    lemma_not_starts("COMMIT"@, rest, "DROP"@, 0);
    lemma_not_starts("COMMIT"@, rest, "TRUNCATE"@, 0);
    lemma_not_starts("COMMIT"@, rest, "BEGIN"@, 0);
    lemma_not_starts("COMMIT"@, rest, "START TRANSACTION"@, 0);
}

proof fn lemma_end(rest: Seq<char>)
    ensures
        kind_of_upper("END"@ + rest) == QueryKind::Commit,
{
    lemma_words();
    lemma_starts("END"@, rest);
    lemma_not_starts("END"@, rest, "SELECT"@, 0);
    lemma_not_starts("END"@, rest, "WITH"@, 0);
    lemma_not_starts("END"@, rest, "INSERT"@, 0);
    lemma_not_starts("END"@, rest, "UPDATE"@, 0);
    lemma_not_starts("END"@, rest, "DELETE"@, 0);
    lemma_not_starts("END"@, rest, "CREATE"@, 0);
    lemma_not_starts("END"@, rest, "ALTER"@, 0);
    lemma_not_starts("END"@, rest, "DROP"@, 0);
    lemma_not_starts("END"@, rest, "TRUNCATE"@, 0);
    lemma_not_starts("END"@, rest, "BEGIN"@, 0);
    lemma_not_starts("END"@, rest, "START TRANSACTION"@, 0);
    lemma_not_starts("END"@, rest, "COMMIT"@, 0);
}

proof fn lemma_rollback_to(rest: Seq<char>)
    ensures
        kind_of_upper("ROLLBACK TO"@ + rest) == QueryKind::Other,
{
    lemma_words();
    lemma_starts("ROLLBACK TO"@, rest);
    lemma_not_starts("ROLLBACK TO"@, rest, "SELECT"@, 0);
    lemma_not_starts("ROLLBACK TO"@, rest, "WITH"@, 0);
    lemma_not_starts("ROLLBACK TO"@, rest, "INSERT"@, 0);
    lemma_not_starts("ROLLBACK TO"@, rest, "UPDATE"@, 0);
    lemma_not_starts("ROLLBACK TO"@, rest, "DELETE"@, 0);
    lemma_not_starts("ROLLBACK TO"@, rest, "CREATE"@, 0);
    lemma_not_starts("ROLLBACK TO"@, rest, "ALTER"@, 0);
    lemma_not_starts("ROLLBACK TO"@, rest, "DROP"@, 0);
    lemma_not_starts("ROLLBACK TO"@, rest, "TRUNCATE"@, 0);
    lemma_not_starts("ROLLBACK TO"@, rest, "BEGIN"@, 0);
    lemma_not_starts("ROLLBACK TO"@, rest, "START TRANSACTION"@, 0);
    lemma_not_starts("ROLLBACK TO"@, rest, "COMMIT"@, 0);
    lemma_not_starts("ROLLBACK TO"@, rest, "END"@, 0);
}

proof fn lemma_rollback(rest: Seq<char>)
    ensures
        !starts_with("ROLLBACK"@ + rest, "ROLLBACK TO"@) ==> kind_of_upper("ROLLBACK"@ + rest) == QueryKind::Rollback,
{
    lemma_words();
    lemma_starts("ROLLBACK"@, rest);
    lemma_not_starts("ROLLBACK"@, rest, "SELECT"@, 0);
    lemma_not_starts("ROLLBACK"@, rest, "WITH"@, 0);
    lemma_not_starts("ROLLBACK"@, rest, "INSERT"@, 0);
    lemma_not_starts("ROLLBACK"@, rest, "UPDATE"@, 0);
    lemma_not_starts("ROLLBACK"@, rest, "DELETE"@, 0);
    lemma_not_starts("ROLLBACK"@, rest, "CREATE"@, 0);
    lemma_not_starts("ROLLBACK"@, rest, "ALTER"@, 0);
    lemma_not_starts("ROLLBACK"@, rest, "DROP"@, 0);
    lemma_not_starts("ROLLBACK"@, rest, "TRUNCATE"@, 0);
    lemma_not_starts("ROLLBACK"@, rest, "BEGIN"@, 0);
    lemma_not_starts("ROLLBACK"@, rest, "START TRANSACTION"@, 0);
    lemma_not_starts("ROLLBACK"@, rest, "COMMIT"@, 0);
    lemma_not_starts("ROLLBACK"@, rest, "END"@, 0);
}

proof fn lemma_abort(rest: Seq<char>)
    ensures
        kind_of_upper("ABORT"@ + rest) == QueryKind::Rollback,
{
    lemma_words();
    lemma_starts("ABORT"@, rest);
    lemma_not_starts("ABORT"@, rest, "SELECT"@, 0);
    lemma_not_starts("ABORT"@, rest, "WITH"@, 0);
    lemma_not_starts("ABORT"@, rest, "INSERT"@, 0);
    lemma_not_starts("ABORT"@, rest, "UPDATE"@, 0);
    lemma_not_starts("ABORT"@, rest, "DELETE"@, 0);
    lemma_not_starts("ABORT"@, rest, "CREATE"@, 0);
    lemma_not_starts("ABORT"@, rest, "ALTER"@, 1);
    lemma_not_starts("ABORT"@, rest, "DROP"@, 0);
    lemma_not_starts("ABORT"@, rest, "TRUNCATE"@, 0);
    lemma_not_starts("ABORT"@, rest, "BEGIN"@, 0);
    lemma_not_starts("ABORT"@, rest, "START TRANSACTION"@, 0);
    lemma_not_starts("ABORT"@, rest, "COMMIT"@, 0);
    lemma_not_starts("ABORT"@, rest, "END"@, 0);
    lemma_not_starts("ABORT"@, rest, "ROLLBACK TO"@, 0);
    lemma_not_starts("ABORT"@, rest, "ROLLBACK"@, 0);
}

/// A query or a write has the kind that its first word tells, whatever stands
/// behind that word.
pub proof fn law_queries_and_writes_by_first_word(rest: Seq<char>)
    ensures
        kind_of_upper("SELECT"@ + rest) == QueryKind::Select,
        kind_of_upper("INSERT"@ + rest) == QueryKind::Insert,
        kind_of_upper("UPDATE"@ + rest) == QueryKind::Update,
        kind_of_upper("DELETE"@ + rest) == QueryKind::Delete,
{
    lemma_select(rest);
    lemma_insert(rest);
    lemma_update(rest);
    lemma_delete(rest);
}

/// CREATE, ALTER, DROP and TRUNCATE define data.
pub proof fn law_definitions_by_first_word(rest: Seq<char>)
    ensures
        kind_of_upper("CREATE"@ + rest) == QueryKind::Ddl,
        kind_of_upper("ALTER"@ + rest) == QueryKind::Ddl,
        kind_of_upper("DROP"@ + rest) == QueryKind::Ddl,
        kind_of_upper("TRUNCATE"@ + rest) == QueryKind::Ddl,
{
    lemma_create(rest);
    lemma_alter(rest);
    lemma_drop(rest);
    lemma_truncate(rest);
}

/// BEGIN and START TRANSACTION begin a transaction, COMMIT and END commit it.
pub proof fn law_transactions_begin_by_first_word(rest: Seq<char>)
    ensures
        kind_of_upper("BEGIN"@ + rest) == QueryKind::Begin,
        kind_of_upper("START TRANSACTION"@ + rest) == QueryKind::Begin,
        kind_of_upper("COMMIT"@ + rest) == QueryKind::Commit,
        kind_of_upper("END"@ + rest) == QueryKind::Commit,
{
    lemma_begin(rest);
    lemma_start_transaction(rest);
    lemma_commit(rest);
    lemma_end(rest);
}

/// ROLLBACK and ABORT roll a transaction back, but not ROLLBACK TO a savepoint.
pub proof fn law_rollbacks_by_first_word(rest: Seq<char>)
    ensures
        kind_of_upper("ROLLBACK TO"@ + rest) == QueryKind::Other,
        !starts_with("ROLLBACK"@ + rest, "ROLLBACK TO"@) ==> kind_of_upper("ROLLBACK"@ + rest) == QueryKind::Rollback,
        kind_of_upper("ABORT"@ + rest) == QueryKind::Rollback,
{
    lemma_rollback_to(rest);
    lemma_rollback(rest);
    lemma_abort(rest);
}

/// A statement that begins with none of these words has no kind of its own.
pub proof fn law_other_statements(u: Seq<char>)
    requires
        begins_otherwise(u),
    ensures
        kind_of_upper(u) == QueryKind::Other,
{
    lemma_words();
    if starts_with(u, "ROLLBACK TO"@) {
        assert(u.subrange(0, 8) =~= u.subrange(0, 11).subrange(0, 8));
        assert("ROLLBACK TO"@.subrange(0, 8) =~= "ROLLBACK"@);
    }
}

/// Leading white space does not change the kind.
pub proof fn law_kind_ignores_leading_space(space: char, sql: Seq<char>)
    requires
        is_space(space),
    ensures
        kind_of(seq![space] + sql) == kind_of(sql),
{
    let s = seq![space] + sql;
    assert(s.skip(1) =~= sql);
    assert(s[0] == space);
}

/// Two ASCII texts that differ only in case have the same kind.
pub proof fn law_kind_ignores_case(a: Seq<char>, b: Seq<char>)
    requires
        is_ascii_chars(trim_start(a)),
        is_ascii_chars(trim_start(b)),
        ascii_uppercase(trim_start(a)) == ascii_uppercase(trim_start(b)),
    ensures
        kind_of(a) == kind_of(b),
{
}

// ── Transactions ────────────────────────────────────────────────────

/// The queries that begin a transaction.
pub open spec fn begins() -> spec_fn(QueryView) -> bool {
    |q: QueryView| q.kind == QueryKind::Begin
}

proof fn lemma_begun(qs: Seq<QueryView>, first: int, n: int)
    requires
        0 <= n <= qs.len(),
    ensures
        open_txn(qs, first, n).1 == qs.take(n).filter(begins()).len(),
    decreases n,
{
    reveal(Seq::filter);
    if n > 0 {
        lemma_begun(qs, first, n - 1);
        assert(qs.take(n).drop_last() =~= qs.take(n - 1));
        assert(qs.take(n).last() == qs[n - 1]);
    }
}

/// Transactions are numbered in the order of their BEGIN: one has the number of
/// those before it more than the first.
pub proof fn law_transactions_are_numbered(qs: Seq<QueryView>, first: int, i: int)
    requires
        0 <= i < qs.len(),
        qs[i].kind == QueryKind::Begin,
    ensures
        with_txns(qs, first)[i].transaction_id == Some((first + qs.take(i).filter(begins()).len()) as u64),
        txn_count(qs) == qs.filter(begins()).len(),
{
    lemma_begun(qs, first, i);
    lemma_begun(qs, 0, qs.len() as int);
    assert(qs.take(qs.len() as int) =~= qs);
}

proof fn lemma_closed(qs: Seq<QueryView>, first: int, i: int, j: int)
    requires
        -1 <= i < j <= qs.len(),
        i >= 0 ==> qs[i].kind == QueryKind::Commit || qs[i].kind == QueryKind::Rollback,
        forall|k: int| i < k < j ==> (#[trigger] qs[k]).kind != QueryKind::Begin,
    ensures
        open_txn(qs, first, j).0 is None,
    decreases j - i,
{
    if i + 1 < j {
        lemma_closed(qs, first, i, j - 1);
        assert(qs[j - 1].kind != QueryKind::Begin);
    }
}

/// Between the end of a transaction, or the start of the session, and the next
/// BEGIN no query belongs to a transaction.
pub proof fn law_no_transaction_between_blocks(qs: Seq<QueryView>, first: int, i: int, j: int)
    requires
        -1 <= i < j < qs.len(),
        i >= 0 ==> qs[i].kind == QueryKind::Commit || qs[i].kind == QueryKind::Rollback,
        forall|k: int| i < k < j ==> (#[trigger] qs[k]).kind != QueryKind::Begin,
    ensures
        qs[j].kind != QueryKind::Begin && qs[j].kind != QueryKind::Commit && qs[j].kind != QueryKind::Rollback
            ==> with_txns(qs, first)[j].transaction_id is None,
        qs[j].kind == QueryKind::Commit || qs[j].kind == QueryKind::Rollback ==> with_txns(qs, first)[j].transaction_id
            == qs[j].transaction_id,
{
    lemma_closed(qs, first, i, j);
}

/// Nothing but the transaction of a query is changed.
pub proof fn law_transactions_keep_the_rest(qs: Seq<QueryView>, first: int, i: int)
    requires
        0 <= i < qs.len(),
    ensures
        with_txns(qs, first).len() == qs.len(),
        ({
            let q = with_txns(qs, first)[i];
            &&& q.sql == qs[i].sql
            &&& q.kind == qs[i].kind
            &&& q.start_offset_us == qs[i].start_offset_us
            &&& q.duration_us == qs[i].duration_us
            &&& q.response_values == qs[i].response_values
            &&& q.original_sql == qs[i].original_sql
        }),
{
}

// ── Classes ─────────────────────────────────────────────────────────

/// The queries that read.
pub open spec fn reading() -> spec_fn(QueryView) -> bool {
    |q: QueryView| q.kind == QueryKind::Select
}

/// The queries that change data or its structure.
pub open spec fn writing() -> spec_fn(QueryView) -> bool {
    |q: QueryView|
        q.kind == QueryKind::Insert || q.kind == QueryKind::Update || q.kind == QueryKind::Delete || q.kind
            == QueryKind::Ddl
}

/// Reads, writes and transactions of a session are counted by the kinds of its
/// queries.
pub proof fn law_class_counts_kinds(qs: Seq<QueryView>)
    ensures
        read_count(qs) == qs.filter(reading()).len(),
        write_count(qs) == qs.filter(writing()).len(),
        begin_count(qs) == qs.filter(begins()).len(),
    decreases qs.len(),
{
    reveal(Seq::filter);
    if qs.len() > 0 {
        law_class_counts_kinds(qs.drop_last());
    }
}

/// The average duration is the total in equal parts, rounded down, and the total
/// adds up.
pub proof fn law_average_duration(qs: Seq<QueryView>, q: QueryView)
    ensures
        qs.len() > 0 ==> average_duration(qs) * qs.len() <= total_duration(qs) < (average_duration(qs) + 1)
            * qs.len(),
        qs.len() == 0 ==> average_duration(qs) == 0 && total_duration(qs) == 0,
        total_duration(qs.push(q)) == total_duration(qs) + q.duration_us,
{
    assert(qs.push(q).drop_last() =~= qs);
    if qs.len() > 0 {
        let n = qs.len() as int;
        let t = total_duration(qs) as int;
        assert((t / n) * n <= t < (t / n + 1) * n) by (nonlinear_arith)
            requires
                n > 0,
                t >= 0,
        ;
    }
}

/// A session is bulk just where more than four in five of its reads and writes
/// are writes in two transactions at most; else analytical just where more than
/// four in five are reads that take over ten milliseconds on average; else
/// transactional just where more than one in five are writes, under five
/// milliseconds on average, in more than two transactions; else mixed.
pub proof fn law_classes(s: SessionView)
    ensures
        ({
            let r = s.queries.filter(reading()).len() as int;
            let w = s.queries.filter(writing()).len() as int;
            let t = s.queries.filter(begins()).len() as int;
            let us = average_duration(s.queries) as int;
            let bulk = w > 4 * r && t <= 2;
            let analytical = r > 4 * w && us > 10_000;
            let transactional = 4 * w > r && us < 5_000 && t > 2;
            &&& class_of(s) == WorkloadClass::Bulk <==> bulk
            &&& class_of(s) == WorkloadClass::Analytical <==> !bulk && analytical
            &&& class_of(s) == WorkloadClass::Transactional <==> !bulk && !analytical && transactional
            &&& class_of(s) == WorkloadClass::Mixed <==> !bulk && !analytical && !transactional
        }),
{
    law_class_counts_kinds(s.queries);
}

/// The overall class is one that no class outnumbers; of those with as many
/// sessions bulk comes first, then mixed, then transactional.
pub proof fn law_overall_class(c: ClassCounts)
    ensures
        majority(c) == WorkloadClass::Bulk <==> c.bulk >= c.mixed && c.bulk >= c.transactional && c.bulk
            >= c.analytical,
        majority(c) == WorkloadClass::Analytical <==> c.analytical > c.bulk && c.analytical > c.mixed && c.analytical
            > c.transactional,
        majority(c) == WorkloadClass::Transactional ==> c.transactional > c.bulk && c.transactional > c.mixed
            && c.transactional >= c.analytical,
        majority(c) == WorkloadClass::Mixed ==> c.mixed > c.bulk && c.mixed >= c.transactional && c.mixed
            >= c.analytical,
{
}

} // verus!
