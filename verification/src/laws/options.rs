//! Laws of options, configurations and exit codes.

use crate::capture::masking::masked;
use crate::cli::{
    capture_source, duration_secs, is_compiled, size_bytes, source_step, split_size, variant_parts,
    CaptureSourceView, SourceStep,
};
use crate::config::{has_target, has_workload, CaptureConfig, PipelineConfig};
use crate::correlate::sequence::SequenceView;
use crate::laws::csv_log::{is_trimmed, law_trim_takes_space_off};
use crate::number::{decimal, law_decimal_read_back, law_decimal_value, parse_unsigned, signed_decimal};
use crate::pipeline::{
    all_pass, error_code, masked_session, scale_or_one, text_or, workload_source, SourceView,
};
use crate::profile::SessionView;
use crate::proxy::protocol::opt_view;
use crate::text::{contains, ends_with, is_digit, lemma_find_from, match_at, trim};
use crate::tls::{mode_of, TlsMode};
use vstd::prelude::*;

verus! {

// ── Numbers on the command line ─────────────────────────────────────

proof fn lemma_plain_number(n: nat)
    requires
        n <= u64::MAX,
    ensures
        parse_unsigned(decimal(n), u64::MAX as nat) == Some(n),
        is_trimmed(decimal(n)),
        forall|i: int| 0 <= i < decimal(n).len() ==> is_digit(#[trigger] decimal(n)[i]),
        trim(decimal(n)) == decimal(n),
{
    law_decimal_value(n);
    law_decimal_read_back(n, u64::MAX as nat);
    assert(is_digit(decimal(n)[0]));
    assert(is_digit(decimal(n)[decimal(n).len() - 1]));
    law_trim_takes_space_off(Seq::empty(), decimal(n), Seq::empty());
}

/// A duration is read in seconds, with `s` behind it or nothing, and in minutes
/// with `m` behind it.
pub proof fn law_durations_are_read(n: nat)
    requires
        n <= u64::MAX,
    ensures
        duration_secs(decimal(n)) == Some(n),
        duration_secs(decimal(n) + seq!['s']) == Some(n),
        n * 60 <= u64::MAX ==> duration_secs(decimal(n) + seq!['m']) == Some(n * 60),
        n * 60 > u64::MAX ==> duration_secs(decimal(n) + seq!['m']) is None,
{
    lemma_plain_number(n);
    let d = decimal(n);
    let s = d + seq!['s'];
    let m = d + seq!['m'];
    assert(is_digit(d[d.len() - 1]));
    law_trim_takes_space_off(Seq::empty(), s, Seq::empty());
    law_trim_takes_space_off(Seq::empty(), m, Seq::empty());
    assert(s.drop_last() =~= d);
    assert(m.drop_last() =~= d);
}

/// A duration that does not begin with a digit or a plus sign is none.
pub proof fn law_other_durations_are_refused(s: Seq<char>)
    requires
        is_trimmed(s),
        !is_digit(s[0]),
        s[0] != '+',
    ensures
        duration_secs(s) is None,
{
    law_trim_takes_space_off(Seq::empty(), s, Seq::empty());
    if s.len() > 1 {
        assert(s.drop_last()[0] == s[0]);
    }
}

proof fn lemma_size_unit(n: nat, a: char, b: char)
    requires
        n <= u64::MAX,
        (a == 'G' || a == 'M' || a == 'K') && b == 'B',
    ensures
        split_size(decimal(n) + seq![a, b]).0 == decimal(n),
        split_size(decimal(n) + seq![a, b]).1 == (if a == 'G' {
            1_073_741_824nat
        } else if a == 'M' {
            1_048_576nat
        } else {
            1_024nat
        }),
{
    let d = decimal(n);
    let u = d + seq![a, b];
    let k = u.len() - 2;
    assert(u.subrange(k, k + 2) =~= seq![a, b]);
    assert(u.take(k) =~= d);
    if ends_with(u, seq!['G', 'B']) {
        assert(u.subrange(k, k + 2)[0] == 'G');
    }
    if ends_with(u, seq!['M', 'B']) {
        assert(u.subrange(k, k + 2)[0] == 'M');
    }
    if ends_with(u, seq!['K', 'B']) {
        assert(u.subrange(k, k + 2)[0] == 'K');
    }
    assert(ends_with(u, seq![a, b]));
}

/// A size is read in bytes, and in the powers of 1024 that KB, MB and GB stand
/// for; one that is too great is the greatest number.
pub proof fn law_sizes_are_read(n: nat)
    requires
        n <= u64::MAX,
    ensures
        size_bytes(decimal(n)) == n,
        n * 1024 <= u64::MAX ==> size_bytes(decimal(n) + seq!['K', 'B']) == n * 1024,
        n * 1024 * 1024 <= u64::MAX ==> size_bytes(decimal(n) + seq!['M', 'B']) == n * 1024 * 1024,
        n * 1024 * 1024 * 1024 <= u64::MAX ==> size_bytes(decimal(n) + seq!['G', 'B']) == n * 1024 * 1024 * 1024,
        n * 1024 * 1024 * 1024 > u64::MAX ==> size_bytes(decimal(n) + seq!['G', 'B']) == u64::MAX,
{
    lemma_plain_number(n);
    lemma_size_unit(n, 'K', 'B');
    lemma_size_unit(n, 'M', 'B');
    lemma_size_unit(n, 'G', 'B');
    let d = decimal(n);
    assert(!ends_with(d, seq!['G', 'B']) && !ends_with(d, seq!['M', 'B']) && !ends_with(d, seq!['K', 'B'])) by {
        assert(is_digit(d[d.len() - 1]));
        if d.len() >= 2 {
            assert(d.subrange(d.len() - 2, d.len() as int)[1] == d[d.len() - 1]);
        }
    }
    assert(n * 1 == n);
}

/// A variant is a label, the first equals sign, and a connection string, which
/// may hold others.
pub proof fn law_variant_is_read(label: Seq<char>, target: Seq<char>)
    requires
        forall|i: int| 0 <= i < label.len() ==> #[trigger] label[i] != '=',
    ensures
        variant_parts(label + seq!['='] + target) == Some((label, target)),
        variant_parts(label) is None,
{
    let v = label + seq!['='] + target;
    let n = label.len() as int;
    let eq = seq!['='];
    assert(v.subrange(n, n + 1) =~= eq);
    assert forall|k: int| 0 <= k < n implies !match_at(v, eq, k) by {
        if match_at(v, eq, k) {
            assert(v.subrange(k, k + 1)[0] == '=');
            assert(v[k] == label[k]);
        }
    }
    assert(match_at(v, eq, n));
    lemma_find_from(v, eq, 0);
    assert(v.take(n) =~= label);
    assert(v.skip(n + 1) =~= target);
    lemma_find_from(label, eq, 0);
    assert forall|k: int| !match_at(label, eq, k) by {
        if match_at(label, eq, k) {
            assert(label.subrange(k, k + 1)[0] == '=');
            assert(label[k] == '=');
        }
    }
}

// ── Exit codes ──────────────────────────────────────────────────────

/// A text that stands in a message is found there.
pub proof fn law_words_are_found(a: Seq<char>, w: Seq<char>, b: Seq<char>)
    ensures
        contains(a + w + b, w),
{
    let s = a + w + b;
    assert(s.subrange(a.len() as int, a.len() as int + w.len()) =~= w);
    assert(match_at(s, w, a.len() as int));
}

/// An error ends the program with a code by its message: two for configuration,
/// whatever else it says, three for capture, four for provisioning, and five for
/// anything else.
pub proof fn law_errors_have_exit_codes(m: Seq<char>)
    ensures
        contains(m, "Config"@) || contains(m, "parse"@) || contains(m, "TOML"@) <==> error_code(m) == 2,
        error_code(m) != 2 && contains(m, "Capture error"@) ==> error_code(m) == 3,
        error_code(m) == 3 ==> contains(m, "Capture error"@),
        error_code(m) != 2 && error_code(m) != 3 && (contains(m, "Provision error"@) || contains(m, "Docker"@)
            || contains(m, "container"@)) ==> error_code(m) == 4,
        error_code(m) == 4 ==> contains(m, "Provision error"@) || contains(m, "Docker"@) || contains(m, "container"@),
        !contains(m, "Config"@) && !contains(m, "parse"@) && !contains(m, "TOML"@) && !contains(m, "Capture error"@)
            && !contains(m, "Provision error"@) && !contains(m, "Docker"@) && !contains(m, "container"@) ==> error_code(
            m,
        ) == 5,
{
}

/// Thresholds are met where every one is.
pub proof fn law_one_failed_threshold_fails(v: Seq<bool>, i: int)
    ensures
        0 <= i < v.len() && !v[i] ==> !all_pass(v),
        (forall|k: int| 0 <= k < v.len() ==> v[k]) ==> all_pass(v),
{
}

// ── Configurations ──────────────────────────────────────────────────

/// A workload comes from a file, a log, or an instance of a type that has one.
pub proof fn law_workload_is_given(c: PipelineConfig)
    ensures
        c.capture is None ==> !has_workload(c),
        c.capture matches Some(k) ==> (k.workload is Some ==> has_workload(c)),
        c.capture matches Some(k) ==> (k.source_log is Some ==> has_workload(c)),
        c.capture matches Some(k) ==> (k.source_type@ == "rds"@ && k.rds_instance is Some ==> has_workload(c)),
        c.capture matches Some(k) ==> (k.workload is None && k.source_log is None && (k.rds_instance is None
            || k.source_type@ != "rds"@) ==> !has_workload(c)),
{
}

/// A target is given by its connection string, of the replay or of the
/// provisioned database, or by Docker.
pub proof fn law_target_is_given(c: PipelineConfig)
    ensures
        c.replay.target is Some ==> has_target(c),
        c.provision matches Some(p) ==> (p.connection_string is Some ==> has_target(c)),
        c.provision matches Some(p) ==> (p.backend@ == "docker"@ ==> has_target(c)),
        c.replay.target is None && c.provision is None ==> !has_target(c),
        c.provision matches Some(p) ==> (c.replay.target is None && p.connection_string is None && p.backend@
            != "docker"@ ==> !has_target(c)),
{
}

/// A workload file comes before any log; a log is read as its type says, with
/// the host and the version given or unknown.
pub proof fn law_source_of_the_workload(c: CaptureConfig)
    ensures
        workload_source(None) is Err,
        c.workload matches Some(p) ==> workload_source(Some(c)) == Ok::<SourceView, Seq<char>>(SourceView::File(p@)),
        c.workload is None && c.source_type@ == "pg-csv"@ ==> (c.source_log matches Some(log) ==> workload_source(
            Some(c),
        ) == Ok::<SourceView, Seq<char>>(
            SourceView::PgCsv {
                source_log: log@,
                source_host: (match c.source_host {
                    Some(h) => h@,
                    None => "unknown"@,
                }),
                pg_version: (match c.pg_version {
                    Some(v) => v@,
                    None => "unknown"@,
                }),
            },
        )),
        c.workload is None && c.source_type@ == "mysql-slow"@ ==> (c.source_log matches Some(log) ==> workload_source(
            Some(c),
        ) == Ok::<SourceView, Seq<char>>(
            SourceView::MysqlSlow {
                source_log: log@,
                source_host: (match c.source_host {
                    Some(h) => h@,
                    None => "unknown"@,
                }),
            },
        )),
        c.workload is None && c.source_type@ == "rds"@ ==> (c.rds_instance matches Some(id) ==> workload_source(Some(c))
            == Ok::<SourceView, Seq<char>>(
            SourceView::Rds {
                instance: id@,
                region: c.rds_region@,
                log_file: opt_view(c.rds_log_file),
                source_host: (match c.source_host {
                    Some(h) => h@,
                    None => "rds"@,
                }),
            },
        )),
        c.workload is None && c.source_log is None && c.source_type@ != "rds"@ ==> workload_source(Some(c)) is Err,
        c.workload is None && c.source_type@ == "rds"@ && c.rds_instance is None ==> workload_source(Some(c)) is Err,
        c.workload is None && c.source_type@ != "pg-csv"@ && c.source_type@ != "mysql-slow"@ && c.source_type@
            != "rds"@ ==> workload_source(Some(c)) is Err,
{
    reveal_strlit("pg-csv");
    reveal_strlit("mysql-slow");
    reveal_strlit("rds");
    assert("pg-csv"@.len() == 6 && "mysql-slow"@.len() == 10 && "rds"@.len() == 3);
}

/// On the command line, too, each type of source needs what it reads from.
pub proof fn law_source_of_a_capture(log: Option<Seq<char>>, instance: Option<Seq<char>>, other: Seq<char>)
    ensures
        log matches Some(l) ==> capture_source("pg-csv"@, log, instance) == Ok::<CaptureSourceView, Seq<char>>(
            CaptureSourceView::PgCsv(l),
        ),
        log matches Some(l) ==> capture_source("mysql-slow"@, log, instance) == Ok::<CaptureSourceView, Seq<char>>(
            CaptureSourceView::MysqlSlow(l),
        ),
        instance matches Some(i) ==> capture_source("rds"@, log, instance) == Ok::<CaptureSourceView, Seq<char>>(
            CaptureSourceView::Rds(i),
        ),
        log is None ==> capture_source("pg-csv"@, log, instance) is Err && capture_source("mysql-slow"@, log, instance)
            is Err,
        instance is None ==> capture_source("rds"@, log, instance) is Err,
        other != "pg-csv"@ && other != "mysql-slow"@ && other != "rds"@ ==> capture_source(other, log, instance) is Err,
{
    reveal_strlit("pg-csv");
    reveal_strlit("mysql-slow");
    reveal_strlit("rds");
    assert("pg-csv"@.len() == 6 && "mysql-slow"@.len() == 10 && "rds"@.len() == 3);
}

/// A scale that is not given is one, a text that is not given its default.
pub proof fn law_defaults(n: u32, s: String, default: Seq<char>)
    ensures
        scale_or_one(None) == 1,
        scale_or_one(Some(n)) == n,
        text_or(None, default) == default,
        text_or(Some(s), default) == s@,
{
}

/// A step on the source database is taken where it is asked for and there is
/// one.
pub proof fn law_source_steps(asked: bool, source: bool)
    ensures
        source_step(asked, source) == SourceStep::Take <==> asked && source,
        source_step(asked, source) == SourceStep::NoSource <==> asked && !source,
        source_step(asked, source) == SourceStep::NotAsked <==> !asked,
{
}

/// A workload is known to be compiled by the mark in its method.
pub proof fn law_compiled_workloads_are_known(a: Seq<char>, b: Seq<char>)
    ensures
        is_compiled(a + "+compiled"@ + b),
        !contains(a, "+compiled"@) ==> !is_compiled(a),
{
    law_words_are_found(a, "+compiled"@, b);
}

/// The words for a TLS mode.
pub proof fn law_tls_modes(s: Seq<char>)
    ensures
        mode_of("disable"@) == Some(TlsMode::Disable),
        mode_of("off"@) == Some(TlsMode::Disable),
        mode_of("no"@) == Some(TlsMode::Disable),
        mode_of("prefer"@) == Some(TlsMode::Prefer),
        mode_of("require"@) == Some(TlsMode::Require),
        s != "disable"@ && s != "off"@ && s != "no"@ && s != "prefer"@ && s != "require"@ ==> mode_of(s) is None,
{
    reveal_strlit("disable");
    reveal_strlit("off");
    reveal_strlit("no");
    reveal_strlit("prefer");
    reveal_strlit("require");
    assert("disable"@.len() == 7 && "off"@.len() == 3 && "no"@.len() == 2 && "prefer"@.len() == 6);
    assert("disable"@[0] == 'd' && "require"@[0] == 'r' && "require"@.len() == 7);
}

/// Masking a session masks the text of every query and changes nothing else.
pub proof fn law_masked_session(s: SessionView, i: int)
    requires
        0 <= i < s.queries.len(),
    ensures
        masked_session(s).id == s.id,
        masked_session(s).user == s.user,
        masked_session(s).database == s.database,
        masked_session(s).queries.len() == s.queries.len(),
        masked_session(s).queries[i].sql == masked(s.queries[i].sql),
        masked_session(s).queries[i].kind == s.queries[i].kind,
        masked_session(s).queries[i].duration_us == s.queries[i].duration_us,
        masked_session(s).queries[i].start_offset_us == s.queries[i].start_offset_us,
        masked_session(s).queries[i].transaction_id == s.queries[i].transaction_id,
{
}

// ── Sequences ───────────────────────────────────────────────────────

/// A sequence that was used is set to its last value so that the next one
/// follows it; any other is set to its start value so that this comes first.
pub proof fn law_sequences_are_restored(s: SequenceView, v: i64)
    ensures
        s.last_value == Some(v) && s.is_called ==> s.restore_sql() == "SELECT setval('"@ + (seq!['"'] + s.schema + seq![
            '"',
            '.',
            '"',
        ] + s.name + seq!['"']) + "', "@ + signed_decimal(v as int) + ", true)"@,
        s.last_value is None || !s.is_called ==> s.restore_sql() == "SELECT setval('"@ + (seq!['"'] + s.schema + seq![
            '"',
            '.',
            '"',
        ] + s.name + seq!['"']) + "', "@ + signed_decimal(s.start_value as int) + ", false)"@,
{
}

} // verus!
