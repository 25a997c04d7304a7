//! The report on what the program leaves behind on disk.
use crate::json;
use crate::text;
use crate::text::{chars_of, decimal_u64, of_chars, owned, same};
use vstd::prelude::*;

verus! {

/// A directory entry.
#[derive(Debug)]
pub enum Entry {
    /// A file: its name, and its size if that could be read.
    File { name: String, size: Option<u64> },
    /// A directory: its entries, none if they could not be read.
    Directory { entries: Vec<Entry> },
}

/// Bytes of the files below an entry.
pub open spec fn entry_size(e: Entry) -> nat
    decreases e,
{
    match e {
        Entry::File { name, size } => match size {
            Some(n) => n as nat,
            None => 0,
        },
        Entry::Directory { entries } => entries_size(entries@),
    }
}

/// Bytes of the files below some entries.
pub open spec fn entries_size(entries: Seq<Entry>) -> nat
    decreases entries,
{
    if entries.len() == 0 {
        0
    } else {
        entries_size(entries.drop_last()) + entry_size(entries.last())
    }
}

/// The text behind the last dot of a file name; a name that begins with its only
/// dot has no extension.
pub open spec fn extension_of(name: Seq<char>) -> Option<Seq<char>>
    decreases name.len(),
{
    if name.len() <= 1 {
        None
    } else if name.last() == '.' {
        Some(Seq::empty())
    } else {
        match extension_of(name.drop_last()) {
            Some(ext) => Some(ext.push(name.last())),
            None => None,
        }
    }
}

/// How many files below an entry have an extension.
pub open spec fn entry_count(e: Entry, ext: Seq<char>) -> nat
    decreases e,
{
    match e {
        Entry::File { name, size } => if extension_of(name@) == Some(ext) {
            1
        } else {
            0
        },
        Entry::Directory { entries } => entries_count(entries@, ext),
    }
}

/// How many files below some entries have an extension.
pub open spec fn entries_count(entries: Seq<Entry>, ext: Seq<char>) -> nat
    decreases entries,
{
    if entries.len() == 0 {
        0
    } else {
        entries_count(entries.drop_last(), ext) + entry_count(entries.last(), ext)
    }
}

/// `n` if 64 bits hold it.
pub open spec fn fitting(n: nat) -> Option<u64> {
    if n <= u64::MAX {
        Some(n as u64)
    } else {
        None
    }
}

proof fn lemma_size_grows(entries: Seq<Entry>, i: int)
    requires
        0 <= i <= entries.len(),
    ensures
        entries_size(entries.take(i)) <= entries_size(entries),
    decreases entries.len() - i,
{
    if i < entries.len() {
        lemma_size_grows(entries, i + 1);
        assert(entries.take(i + 1).drop_last() =~= entries.take(i));
    } else {
        assert(entries.take(i) =~= entries);
    }
}

proof fn lemma_count_grows(entries: Seq<Entry>, ext: Seq<char>, i: int)
    requires
        0 <= i <= entries.len(),
    ensures
        entries_count(entries.take(i), ext) <= entries_count(entries, ext),
    decreases entries.len() - i,
{
    if i < entries.len() {
        lemma_count_grows(entries, ext, i + 1);
        assert(entries.take(i + 1).drop_last() =~= entries.take(i));
    } else {
        assert(entries.take(i) =~= entries);
    }
}

/// The bytes below a directory, if 64 bits hold their number.
pub fn dir_size(entries: &Vec<Entry>) -> (r: Option<u64>)
    ensures
        r == fitting(entries_size(entries@)),
    decreases entries,
{
    let mut total: u64 = 0;
    let mut i: usize = 0;
    assert(entries@.take(0) =~= Seq::empty());
    while i < entries.len()
        invariant
            i <= entries.len(),
            total == entries_size(entries@.take(i as int)),
        decreases entries.len() - i,
    {
        proof {
            assert(entries@.take(i + 1).drop_last() =~= entries@.take(i as int));
            assert(entries@.take(i + 1).last() == entries@[i as int]);
            lemma_size_grows(entries@, i + 1);
            reveal_with_fuel(entries_size, 2);
            reveal_with_fuel(entry_size, 2);
            assert(decreases_to!(entries => entries@[i as int]));
        }
        let n: u64 = match &entries[i] {
            Entry::File { name: _, size } => match size {
                Some(n) => *n,
                None => 0,
            },
            Entry::Directory { entries: inner } => match dir_size(inner) {
                Some(n) => n,
                None => {
                    return None;
                },
            },
        };
        match total.checked_add(n) {
            Some(sum) => {
                total = sum;
            },
            None => {
                return None;
            },
        }
        i = i + 1;
    }
    assert(entries@.take(entries@.len() as int) =~= entries@);
    Some(total)
}

/// The extension of a file name; see [`extension_of`].
pub fn extension(name: &str) -> (r: Option<String>)
    ensures
        text::opt_view(r) == extension_of(name@),
{
    let cs: Vec<char> = chars_of(name);
    let n: usize = cs.len();
    let mut i: usize = n;
    proof {
        assert(cs@.take(n as int) =~= name@);
        lemma_extension_by_tail(name@, n as int);
    }
    while i > 1
        invariant
            i <= n == cs.len(),
            cs@ == name@,
            n >= 1 || i == 0,
            extension_of(name@) == match extension_of(name@.take(i as int)) {
                Some(e) => Some(e + name@.skip(i as int)),
                None => None,
            },
        decreases i,
    {
        if cs[i - 1] == '.' {
            let tail: Vec<char> = text::tail_of(&cs, i);
            proof {
                assert(name@.take(i as int).last() == '.');
                assert(Seq::<char>::empty() + name@.skip(i as int) =~= name@.skip(i as int));
            }
            return Some(of_chars(tail.as_slice()));
        }
        proof {
            let head = name@.take(i as int);
            assert(head.drop_last() =~= name@.take(i - 1));
            match extension_of(name@.take(i - 1)) {
                Some(e) => {
                    assert(e.push(head.last()) + name@.skip(i as int) =~= e + name@.skip(i - 1));
                },
                None => {},
            }
        }
        i = i - 1;
    }
    None
}

proof fn lemma_extension_by_tail(name: Seq<char>, n: int)
    requires
        n == name.len(),
    ensures
        extension_of(name) == match extension_of(name.take(n)) {
            Some(e) => Some(e + name.skip(n)),
            None => None,
        },
{
    assert(name.take(n) =~= name);
    match extension_of(name) {
        Some(e) => {
            assert(e + name.skip(n) =~= e);
        },
        None => {},
    }
}

fn has_extension(name: &str, ext: &str) -> (r: bool)
    ensures
        r == (extension_of(name@) == Some(ext@)),
{
    match extension(name) {
        Some(e) => same(e.as_str(), ext),
        None => false,
    }
}

/// The number of files below a directory with an extension, if 64 bits hold it.
pub fn count_matching(entries: &Vec<Entry>, ext: &str) -> (r: Option<u64>)
    ensures
        r == fitting(entries_count(entries@, ext@)),
    decreases entries,
{
    let mut count: u64 = 0;
    let mut i: usize = 0;
    assert(entries@.take(0) =~= Seq::empty());
    while i < entries.len()
        invariant
            i <= entries.len(),
            count == entries_count(entries@.take(i as int), ext@),
        decreases entries.len() - i,
    {
        proof {
            assert(entries@.take(i + 1).drop_last() =~= entries@.take(i as int));
            assert(entries@.take(i + 1).last() == entries@[i as int]);
            lemma_count_grows(entries@, ext@, i + 1);
            reveal_with_fuel(entries_count, 2);
            reveal_with_fuel(entry_count, 2);
            assert(decreases_to!(entries => entries@[i as int]));
        }
        let n: u64 = match &entries[i] {
            Entry::File { name, size: _ } => if has_extension(name.as_str(), ext) {
                1
            } else {
                0
            },
            Entry::Directory { entries: inner } => match count_matching(inner, ext) {
                Some(n) => n,
                None => {
                    return None;
                },
            },
        };
        match count.checked_add(n) {
            Some(sum) => {
                count = sum;
            },
            None => {
                return None;
            },
        }
        i = i + 1;
    }
    assert(entries@.take(entries@.len() as int) =~= entries@);
    Some(count)
}

/// The report as JSON text.
pub open spec fn report_text(
    app_code: Seq<char>,
    ts: u64,
    target_bytes: u64,
    log_count: u64,
    temp_count: u64,
) -> Seq<char> {
    "{\"app_code\":\""@ + app_code + "\",\"timestamp\":"@ + text::decimal(ts as nat)
        + ",\"target_size_bytes\":"@ + text::decimal(target_bytes as nat)
        + ",\"log_file_count\":"@ + text::decimal(log_count as nat) + ",\"temp_file_count\":"@
        + text::decimal(temp_count as nat) + "}"@
}

/// See [`report_text`].
pub fn build_json(
    app_code: &str,
    ts: u64,
    target_bytes: u64,
    log_count: u64,
    temp_count: u64,
) -> (s: String)
    ensures
        s@ == report_text(app_code@, ts, target_bytes, log_count, temp_count),
{
    let mut s = owned("{\"app_code\":\"");
    s.append(app_code);
    s.append("\",\"timestamp\":");
    s.append(decimal_u64(ts).as_str());
    s.append(",\"target_size_bytes\":");
    s.append(decimal_u64(target_bytes).as_str());
    s.append(",\"log_file_count\":");
    s.append(decimal_u64(log_count).as_str());
    s.append(",\"temp_file_count\":");
    s.append(decimal_u64(temp_count).as_str());
    s.append("}");
    s
}

/// The report on a directory: the bytes below its directory `target`, the logs
/// below its directory `logs`, and the temporary files anywhere below it. There is
/// none where 64 bits do not hold one of the numbers.
pub fn collect(
    ts: u64,
    target: &Vec<Entry>,
    logs: &Vec<Entry>,
    root: &Vec<Entry>,
) -> (r: Option<String>)
    ensures
        text::opt_view(r) == {
            let temporary = entries_count(root@, "tmp"@) + entries_count(root@, "bak"@);
            if entries_size(target@) <= u64::MAX && entries_count(logs@, "log"@) <= u64::MAX
                && temporary <= u64::MAX {
                Some(
                    report_text(
                        "BSM"@,
                        ts,
                        entries_size(target@) as u64,
                        entries_count(logs@, "log"@) as u64,
                        temporary as u64,
                    ),
                )
            } else {
                None
            }
        },
{
    let target_bytes: u64 = match dir_size(target) {
        Some(n) => n,
        None => {
            return None;
        },
    };
    let log_count: u64 = match count_matching(logs, "log") {
        Some(n) => n,
        None => {
            return None;
        },
    };
    let tmp: u64 = match count_matching(root, "tmp") {
        Some(n) => n,
        None => {
            return None;
        },
    };
    let bak: u64 = match count_matching(root, "bak") {
        Some(n) => n,
        None => {
            return None;
        },
    };
    match tmp.checked_add(bak) {
        Some(temp_count) => Some(build_json("BSM", ts, target_bytes, log_count, temp_count)),
        None => None,
    }
}

// ---------------------------------------------------------------------------
// Laws
// ---------------------------------------------------------------------------

/// The report tells each number under its own name.
pub proof fn reports_tell_all(
    app_code: Seq<char>,
    ts: u64,
    target_bytes: u64,
    log_count: u64,
    temp_count: u64,
)
    ensures
        json::tells(
            report_text(app_code, ts, target_bytes, log_count, temp_count),
            seq![
                json::Member { key: "app_code"@, value: json::quoted(app_code) },
                json::Member { key: "timestamp"@, value: text::decimal(ts as nat) },
                json::Member {
                    key: "target_size_bytes"@,
                    value: text::decimal(target_bytes as nat),
                },
                json::Member { key: "log_file_count"@, value: text::decimal(log_count as nat) },
                json::Member { key: "temp_file_count"@, value: text::decimal(temp_count as nat) },
            ],
        ),
{
    let b0 = Seq::<char>::empty();
    assert(b0 + "{\"app_code\":\""@ =~= "{\"app_code\":\""@);
    let m0 = Seq::<json::Member>::empty();
    assert(json::opens_quoted("{\"app_code\":\""@, "app_code"@)) by {
        reveal_strlit("{\"app_code\":\"");
        reveal_strlit("app_code");
    }
    assert("\",\"timestamp\":"@.len() >= 2
        && "\",\"timestamp\":"@[0] == '"'
        && ("\",\"timestamp\":"@[1] == ',' || "\",\"timestamp\":"@[1] == '}')) by {
        reveal_strlit("\",\"timestamp\":");
    }
    json::lemma_tells_quoted(
        b0,
        m0,
        "{\"app_code\":\""@,
        "app_code"@,
        app_code,
        "\",\"timestamp\":"@,
    );
    let m1 = m0.push(json::Member { key: "app_code"@, value: json::quoted(app_code) });
    let b1 = "{\"app_code\":\""@ + app_code;
    assert(json::opens_member("\",\"timestamp\":"@, "timestamp"@)) by {
        reveal_strlit("\",\"timestamp\":");
        reveal_strlit("timestamp");
    }
    assert(",\"target_size_bytes\":"@.len() >= 1
        && (",\"target_size_bytes\":"@[0] == ',' || ",\"target_size_bytes\":"@[0] == '}')) by {
        reveal_strlit(",\"target_size_bytes\":");
    }
    json::lemma_tells_next(
        b1,
        m1,
        "\",\"timestamp\":"@,
        "timestamp"@,
        text::decimal(ts as nat),
        ",\"target_size_bytes\":"@,
    );
    let m2 = m1.push(json::Member { key: "timestamp"@, value: text::decimal(ts as nat) });
    let b2 = b1 + "\",\"timestamp\":"@ + text::decimal(ts as nat);
    assert(json::opens_member(",\"target_size_bytes\":"@, "target_size_bytes"@)) by {
        reveal_strlit(",\"target_size_bytes\":");
        reveal_strlit("target_size_bytes");
    }
    assert(",\"log_file_count\":"@.len() >= 1
        && (",\"log_file_count\":"@[0] == ',' || ",\"log_file_count\":"@[0] == '}')) by {
        reveal_strlit(",\"log_file_count\":");
    }
    json::lemma_tells_next(
        b2,
        m2,
        ",\"target_size_bytes\":"@,
        "target_size_bytes"@,
        text::decimal(target_bytes as nat),
        ",\"log_file_count\":"@,
    );
    let m3 = m2.push(
        json::Member { key: "target_size_bytes"@, value: text::decimal(target_bytes as nat) },
    );
    let b3 = b2 + ",\"target_size_bytes\":"@ + text::decimal(target_bytes as nat);
    assert(json::opens_member(",\"log_file_count\":"@, "log_file_count"@)) by {
        reveal_strlit(",\"log_file_count\":");
        reveal_strlit("log_file_count");
    }
    assert(",\"temp_file_count\":"@.len() >= 1
        && (",\"temp_file_count\":"@[0] == ',' || ",\"temp_file_count\":"@[0] == '}')) by {
        reveal_strlit(",\"temp_file_count\":");
    }
    json::lemma_tells_next(
        b3,
        m3,
        ",\"log_file_count\":"@,
        "log_file_count"@,
        text::decimal(log_count as nat),
        ",\"temp_file_count\":"@,
    );
    let m4 = m3.push(
        json::Member { key: "log_file_count"@, value: text::decimal(log_count as nat) },
    );
    let b4 = b3 + ",\"log_file_count\":"@ + text::decimal(log_count as nat);
    assert(json::opens_member(",\"temp_file_count\":"@, "temp_file_count"@)) by {
        reveal_strlit(",\"temp_file_count\":");
        reveal_strlit("temp_file_count");
    }
    assert("}"@.len() >= 1 && ("}"@[0] == ',' || "}"@[0] == '}')) by {
        reveal_strlit("}");
    }
    json::lemma_tells_next(
        b4,
        m4,
        ",\"temp_file_count\":"@,
        "temp_file_count"@,
        text::decimal(temp_count as nat),
        "}"@,
    );
    let m5 = m4.push(
        json::Member { key: "temp_file_count"@, value: text::decimal(temp_count as nat) },
    );
    let b5 = b4 + ",\"temp_file_count\":"@ + text::decimal(temp_count as nat);
    assert(m5 =~= seq![
        json::Member { key: "app_code"@, value: json::quoted(app_code) },
        json::Member { key: "timestamp"@, value: text::decimal(ts as nat) },
        json::Member { key: "target_size_bytes"@, value: text::decimal(target_bytes as nat) },
        json::Member { key: "log_file_count"@, value: text::decimal(log_count as nat) },
        json::Member { key: "temp_file_count"@, value: text::decimal(temp_count as nat) },
    ]);
}

/// Bytes and files add up over the entries of a directory, and a directory counts what
/// lies in it.
pub proof fn entries_add_up(a: Seq<Entry>, b: Seq<Entry>, e: Entry, ext: Seq<char>)
    ensures
        entries_size(a + b) == entries_size(a) + entries_size(b),
        entries_size(seq![e]) == entry_size(e),
        entries_count(a + b, ext) == entries_count(a, ext) + entries_count(b, ext),
        entries_count(seq![e], ext) == entry_count(e, ext),
    decreases b.len(),
{
    assert(seq![e].drop_last() =~= Seq::<Entry>::empty());
    reveal_with_fuel(entries_size, 2);
    reveal_with_fuel(entries_count, 2);
    if b.len() == 0 {
        assert(a + b =~= a);
    } else {
        entries_add_up(a, b.drop_last(), e, ext);
        assert((a + b).drop_last() =~= a + b.drop_last());
    }
}

/// A file takes its size, if that is known, and counts once for its own extension.
pub proof fn files_count_once(name: String, size: u64, entries: Vec<Entry>, ext: Seq<char>)
    ensures
        entry_size(Entry::File { name, size: Some(size) }) == size,
        entry_size(Entry::File { name, size: None }) == 0,
        entry_size(Entry::Directory { entries }) == entries_size(entries@),
        entry_count(Entry::File { name, size: Some(size) }, ext) == if extension_of(name@) == Some(
            ext,
        ) {
            1nat
        } else {
            0nat
        },
        entry_count(Entry::Directory { entries }, ext) == entries_count(entries@, ext),
{
    reveal_with_fuel(entry_size, 2);
    reveal_with_fuel(entry_count, 2);
}

/// The extension is what stands behind the last dot, unless that is the first
/// character; without a dot there is none.
pub proof fn extensions_follow_the_last_dot(stem: Seq<char>, ext: Seq<char>)
    requires
        !ext.contains('.'),
    ensures
        stem.len() > 0 ==> extension_of(stem + seq!['.'] + ext) == Some(ext),
        extension_of(seq!['.'] + ext) is None,
        extension_of(ext) is None,
    decreases ext.len(),
{
    let name = stem + seq!['.'] + ext;
    let hidden = seq!['.'] + ext;
    if ext.len() == 0 {
        assert(stem.len() > 0 ==> name.last() == '.');
    } else {
        let t = ext.drop_last();
        assert forall|i: int| 0 <= i < t.len() implies t[i] != '.' by {
            assert(ext.contains(ext[i]));
        }
        assert(ext.contains(ext[ext.len() - 1]));
        extensions_follow_the_last_dot(stem, t);
        assert(name.drop_last() =~= stem + seq!['.'] + t);
        assert(hidden.drop_last() =~= seq!['.'] + t);
        assert(t.push(ext.last()) =~= ext);
    }
}

/// The report on a directory tells the bytes below `target`, the logs below `logs`, and the
/// temporary and backup files anywhere, wherever 64 bits hold the numbers.
pub proof fn reports_count_what_is_left(
    ts: u64,
    target: Vec<Entry>,
    logs: Vec<Entry>,
    root: Vec<Entry>,
    r: Option<String>,
)
    requires
        call_ensures(collect, (ts, &target, &logs, &root), r),
        entries_size(target@) <= u64::MAX,
        entries_count(logs@, "log"@) <= u64::MAX,
        entries_count(root@, "tmp"@) + entries_count(root@, "bak"@) <= u64::MAX,
    ensures
        r is Some,
        json::has_member(
            r->0@,
            json::Member {
                key: "target_size_bytes"@,
                value: text::decimal(entries_size(target@)),
            },
        ),
        json::has_member(
            r->0@,
            json::Member {
                key: "log_file_count"@,
                value: text::decimal(entries_count(logs@, "log"@)),
            },
        ),
        json::has_member(
            r->0@,
            json::Member {
                key: "temp_file_count"@,
                value: text::decimal(entries_count(root@, "tmp"@) + entries_count(root@, "bak"@)),
            },
        ),
        json::has_member(
            r->0@,
            json::Member { key: "timestamp"@, value: text::decimal(ts as nat) },
        ),
{
    let bytes = entries_size(target@) as u64;
    let log_count = entries_count(logs@, "log"@) as u64;
    let temp = (entries_count(root@, "tmp"@) + entries_count(root@, "bak"@)) as u64;
    reports_tell_all("BSM"@, ts, bytes, log_count, temp);
    let members = seq![
        json::Member { key: "app_code"@, value: json::quoted("BSM"@) },
        json::Member { key: "timestamp"@, value: text::decimal(ts as nat) },
        json::Member { key: "target_size_bytes"@, value: text::decimal(bytes as nat) },
        json::Member { key: "log_file_count"@, value: text::decimal(log_count as nat) },
        json::Member { key: "temp_file_count"@, value: text::decimal(temp as nat) },
    ];
    let t = report_text("BSM"@, ts, bytes, log_count, temp);
    assert(json::has_member(t, members[1]));
    assert(json::has_member(t, members[2]));
    assert(json::has_member(t, members[3]));
    assert(json::has_member(t, members[4]));
}

} // verus!
