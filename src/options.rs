use vstd::prelude::*;
use vstd::string::*;

verus! {

// Linux kernel mount flags (`MS_*`).
pub const MS_RDONLY: u64 = 1;
pub const MS_NOSUID: u64 = 2;
pub const MS_NODEV: u64 = 4;
pub const MS_NOEXEC: u64 = 8;
pub const MS_SYNCHRONOUS: u64 = 16;
pub const MS_REMOUNT: u64 = 32;
pub const MS_MANDLOCK: u64 = 64;
pub const MS_DIRSYNC: u64 = 128;
pub const MS_NOATIME: u64 = 1024;
pub const MS_NODIRATIME: u64 = 2048;
pub const MS_RELATIME: u64 = 2097152;
pub const MS_STRICTATIME: u64 = 16777216;
pub const MS_LAZYTIME: u64 = 33554432;

/// The pieces of `s` between occurrences of `sep`, as `str::split` yields them:
/// always at least one piece, empty pieces included.
pub open spec fn split_on(s: Seq<char>, sep: char) -> Seq<Seq<char>>
    decreases s.len(),
{
    if s.len() == 0 {
        seq![Seq::<char>::empty()]
    } else {
        let pre = split_on(s.drop_last(), sep);
        if s.last() == sep {
            pre.push(Seq::<char>::empty())
        } else {
            pre.update(pre.len() - 1, pre.last().push(s.last()))
        }
    }
}

/// The pieces joined back together with `sep` between neighbours.
pub open spec fn join_on(ts: Seq<Seq<char>>, sep: char) -> Seq<char>
    decreases ts.len(),
{
    if ts.len() == 0 {
        Seq::<char>::empty()
    } else if ts.len() == 1 {
        ts[0]
    } else {
        join_on(ts.drop_last(), sep).push(sep) + ts.last()
    }
}

/// The kernel mount flag a known option keyword stands for; `None` for a
/// filesystem-specific option.
pub open spec fn flag_of(t: Seq<char>) -> Option<u64> {
    if t == "dirsync"@ {
        Some(MS_DIRSYNC)
    } else if t == "lazytime"@ {
        Some(MS_LAZYTIME)
    } else if t == "mand"@ {
        Some(MS_MANDLOCK)
    } else if t == "noatime"@ {
        Some(MS_NOATIME)
    } else if t == "nodev"@ {
        Some(MS_NODEV)
    } else if t == "nodiratime"@ {
        Some(MS_NODIRATIME)
    } else if t == "noexec"@ {
        Some(MS_NOEXEC)
    } else if t == "nosuid"@ {
        Some(MS_NOSUID)
    } else if t == "relatime"@ {
        Some(MS_RELATIME)
    } else if t == "remount"@ {
        Some(MS_REMOUNT)
    } else if t == "ro"@ {
        Some(MS_RDONLY)
    } else if t == "rw"@ {
        Some(0)
    } else if t == "strictatime"@ {
        Some(MS_STRICTATIME)
    } else if t == "sync"@ {
        Some(MS_SYNCHRONOUS)
    } else if t.len() == 0 {
        Some(0)
    } else {
        None
    }
}

pub open spec fn flag_bits(t: Seq<char>) -> u64 {
    match flag_of(t) {
        Some(f) => f,
        None => 0,
    }
}

/// The bitwise OR of the flags of all known tokens.
pub open spec fn flags_of(ts: Seq<Seq<char>>) -> u64
    decreases ts.len(),
{
    if ts.len() == 0 {
        0
    } else {
        flags_of(ts.drop_last()) | flag_bits(ts.last())
    }
}

/// The unknown tokens, in the order in which they occur.
pub open spec fn unknown_of(ts: Seq<Seq<char>>) -> Seq<Seq<char>>
    decreases ts.len(),
{
    if ts.len() == 0 {
        Seq::<Seq<char>>::empty()
    } else if flag_of(ts.last()) is None {
        unknown_of(ts.drop_last()).push(ts.last())
    } else {
        unknown_of(ts.drop_last())
    }
}

/// The tokens of a comma-separated option string.
pub open spec fn option_tokens(s: Seq<char>) -> Seq<Seq<char>> {
    split_on(s, ',')
}

/// A split has at least one piece, and no piece holds the separator.
pub proof fn lemma_split_pieces(s: Seq<char>, sep: char)
    ensures
        split_on(s, sep).len() >= 1,
        forall|i: int| 0 <= i < split_on(s, sep).len() ==> !(#[trigger] split_on(s, sep)[i]).contains(sep),
    decreases s.len(),
{
    if s.len() > 0 {
        lemma_split_pieces(s.drop_last(), sep);
        let pre = split_on(s.drop_last(), sep);
        if s.last() != sep {
            let l = pre.last().push(s.last());
            assert forall|j: int| 0 <= j < l.len() implies l[j] != sep by {
                if j < pre.last().len() {
                    assert(pre.last()[j] == l[j]);
                }
            }
        }
    }
}

proof fn lemma_split_plain_suffix(a: Seq<char>, b: Seq<char>, sep: char)
    requires
        !b.contains(sep),
    ensures
        split_on(a + b, sep) == split_on(a, sep).update(
            split_on(a, sep).len() - 1,
            split_on(a, sep).last() + b,
        ),
    decreases b.len(),
{
    lemma_split_pieces(a, sep);
    let sa = split_on(a, sep);
    if b.len() == 0 {
        assert(a + b =~= a);
        assert(sa.last() + b =~= sa.last());
        assert(sa.update(sa.len() - 1, sa.last() + b) =~= sa);
    } else {
        let b0 = b.drop_last();
        assert(!b0.contains(sep)) by {
            assert forall|j: int| 0 <= j < b0.len() implies b0[j] != sep by {
                assert(b0[j] == b[j]);
            }
        }
        assert(b.contains(b.last()));
        lemma_split_plain_suffix(a, b0, sep);
        assert((a + b).drop_last() =~= a + b0);
        assert((a + b).last() == b.last());
        assert((sa.last() + b0).push(b.last()) =~= sa.last() + b);
        assert(split_on(a + b, sep) =~= sa.update(sa.len() - 1, sa.last() + b));
    }
}

proof fn lemma_split_join(ts: Seq<Seq<char>>, sep: char)
    requires
        ts.len() >= 1,
        forall|i: int| 0 <= i < ts.len() ==> !(#[trigger] ts[i]).contains(sep),
    ensures
        split_on(join_on(ts, sep), sep) == ts,
    decreases ts.len(),
{
    if ts.len() == 1 {
        let e = Seq::<char>::empty();
        lemma_split_plain_suffix(e, ts[0], sep);
        assert(e + ts[0] =~= ts[0]);
        assert(split_on(e, sep).last() + ts[0] =~= ts[0]);
        assert(split_on(ts[0], sep) =~= ts);
    } else {
        let pre = ts.drop_last();
        assert forall|i: int| 0 <= i < pre.len() implies !(#[trigger] pre[i]).contains(sep) by {
            assert(pre[i] == ts[i]);
        }
        lemma_split_join(pre, sep);
        let jp = join_on(pre, sep);
        assert(jp.push(sep).drop_last() =~= jp);
        let sp = split_on(jp.push(sep), sep);
        assert(sp == pre.push(Seq::<char>::empty()));
        assert(!ts[ts.len() - 1].contains(sep));
        lemma_split_plain_suffix(jp.push(sep), ts.last(), sep);
        assert(Seq::<char>::empty() + ts.last() =~= ts.last());
        assert(sp.update(sp.len() - 1, sp.last() + ts.last()) =~= ts);
    }
}

proof fn lemma_unknown_members(ts: Seq<Seq<char>>)
    ensures
        forall|k: int|
            0 <= k < unknown_of(ts).len() ==> ts.contains(#[trigger] unknown_of(ts)[k])
                && flag_of(unknown_of(ts)[k]) is None,
        forall|i: int|
            0 <= i < ts.len() && flag_of(#[trigger] ts[i]) is None ==> unknown_of(ts).contains(
                ts[i],
            ),
    decreases ts.len(),
{
    if ts.len() > 0 {
        let pre = ts.drop_last();
        lemma_unknown_members(pre);
        let u = unknown_of(ts);
        let up = unknown_of(pre);
        assert forall|k: int| 0 <= k < u.len() implies ts.contains(#[trigger] u[k]) && flag_of(
            u[k],
        ) is None by {
            if k < up.len() {
                assert(u[k] == up[k]);
                let j = choose|j: int| 0 <= j < pre.len() && pre[j] == up[k];
                assert(ts[j] == pre[j]);
            } else {
                assert(ts[ts.len() - 1] == u[k]);
            }
        }
        assert forall|i: int| 0 <= i < ts.len() && flag_of(#[trigger] ts[i]) is None implies u.contains(
            ts[i],
        ) by {
            if i < pre.len() {
                assert(pre[i] == ts[i]);
                let k = choose|k: int| 0 <= k < up.len() && up[k] == pre[i];
                assert(u[k] == up[k]);
            } else {
                assert(u[u.len() - 1] == ts[i]);
            }
        }
    }
}

/// Every token of an option string is classified exactly once: it adds flag
/// bits exactly when it is a known keyword, and it is kept in the
/// filesystem-specific data exactly when it is not. Splitting that data on
/// commas gives back the unknown tokens, in the order in which they occurred.
pub proof fn lemma_options_partitioned(s: Seq<char>)
    ensures
        forall|i: int|
            0 <= i < option_tokens(s).len() ==> (flag_of(#[trigger] option_tokens(s)[i]) is Some
                <==> !unknown_of(option_tokens(s)).contains(option_tokens(s)[i])),
        unknown_of(option_tokens(s)).len() > 0 ==> option_tokens(
            join_on(unknown_of(option_tokens(s)), ','),
        ) == unknown_of(option_tokens(s)),
{
    let ts = option_tokens(s);
    let u = unknown_of(ts);
    lemma_split_pieces(s, ',');
    lemma_unknown_members(ts);
    assert forall|i: int| 0 <= i < ts.len() implies (flag_of(#[trigger] ts[i]) is Some
        <==> !u.contains(ts[i])) by {
        if flag_of(ts[i]) is Some && u.contains(ts[i]) {
            let k = choose|k: int| 0 <= k < u.len() && u[k] == ts[i];
        }
    }
    if u.len() > 0 {
        assert forall|k: int| 0 <= k < u.len() implies !(#[trigger] u[k]).contains(',') by {
            let j = choose|j: int| 0 <= j < ts.len() && ts[j] == u[k];
        }
        lemma_split_join(u, ',');
    }
}

/// Joining the pieces of a split gives back the text.
pub proof fn lemma_join_split(s: Seq<char>, sep: char)
    ensures
        join_on(split_on(s, sep), sep) == s,
    decreases s.len(),
{
    if s.len() > 0 {
        let pre = s.drop_last();
        lemma_join_split(pre, sep);
        lemma_split_pieces(pre, sep);
        let ts = split_on(pre, sep);
        let c = s.last();
        assert(pre.push(c) =~= s);
        if c == sep {
            let t1 = ts.push(Seq::<char>::empty());
            assert(t1.drop_last() =~= ts);
            assert(join_on(t1, sep) =~= s);
        } else {
            let t1 = ts.update(ts.len() - 1, ts.last().push(c));
            if ts.len() == 1 {
                assert(join_on(t1, sep) =~= s);
            } else {
                assert(t1.drop_last() =~= ts.drop_last());
                assert(join_on(t1, sep) =~= s);
            }
        }
    }
}

pub(crate) fn text_eq(a: &str, b: &str) -> (r: bool)
    ensures
        r == (a@ == b@),
{
    let n = a.unicode_len();
    let m = b.unicode_len();
    if n != m {
        return false;
    }
    let mut i: usize = 0;
    while i < n
        invariant
            n == a@.len(),
            m == b@.len(),
            n == m,
            i <= n,
            forall|j: int| 0 <= j < i ==> a@[j] == b@[j],
        decreases n - i,
    {
        if a.get_char(i) != b.get_char(i) {
            return false;
        }
        i += 1;
    }
    assert(a@ =~= b@);
    true
}

/// Looks a token up in the table of known mount-option keywords.
pub fn flag_for_token(t: &str) -> (r: Option<u64>)
    ensures
        r == flag_of(t@),
{
    if text_eq(t, "dirsync") {
        Some(MS_DIRSYNC)
    } else if text_eq(t, "lazytime") {
        Some(MS_LAZYTIME)
    } else if text_eq(t, "mand") {
        Some(MS_MANDLOCK)
    } else if text_eq(t, "noatime") {
        Some(MS_NOATIME)
    } else if text_eq(t, "nodev") {
        Some(MS_NODEV)
    } else if text_eq(t, "nodiratime") {
        Some(MS_NODIRATIME)
    } else if text_eq(t, "noexec") {
        Some(MS_NOEXEC)
    } else if text_eq(t, "nosuid") {
        Some(MS_NOSUID)
    } else if text_eq(t, "relatime") {
        Some(MS_RELATIME)
    } else if text_eq(t, "remount") {
        Some(MS_REMOUNT)
    } else if text_eq(t, "ro") {
        Some(MS_RDONLY)
    } else if text_eq(t, "rw") {
        Some(0)
    } else if text_eq(t, "strictatime") {
        Some(MS_STRICTATIME)
    } else if text_eq(t, "sync") {
        Some(MS_SYNCHRONOUS)
    } else if t.unicode_len() == 0 {
        Some(0)
    } else {
        None
    }
}

fn add_token(
    tok: &str,
    flags: &mut u64,
    data: &mut String,
    any: &mut bool,
    Ghost(done): Ghost<Seq<Seq<char>>>,
)
    requires
        *old(flags) == flags_of(done),
        *old(any) == (unknown_of(done).len() > 0),
        old(data)@ == join_on(unknown_of(done), ','),
    ensures
        *final(flags) == flags_of(done.push(tok@)),
        *final(any) == (unknown_of(done.push(tok@)).len() > 0),
        final(data)@ == join_on(unknown_of(done.push(tok@)), ','),
{
    let ghost ts = done.push(tok@);
    assert(ts.drop_last() =~= done);
    match flag_for_token(tok) {
        Some(f) => {
            *flags = *flags | f;
        },
        None => {
            let ghost u = unknown_of(done);
            let ghost fl: u64 = *flags;
            assert(fl | 0u64 == fl) by (bit_vector);
            if *any {
                data.append(",");
                proof {
                    reveal_strlit(",");
                }
                assert(u.push(tok@).drop_last() =~= u);
            } else {
                assert(u.len() == 0);
            }
            data.append(tok);
            *any = true;
            assert(data@ =~= join_on(u.push(tok@), ','));
        },
    }
}

/// Splits a comma-separated option string into the kernel mount flags of the
/// known keywords and the remaining filesystem-specific options, kept in order
/// and joined with commas (`None` where there are none).
pub fn parse_mount_options(options: &str) -> (r: (Option<String>, u64))
    ensures
        r.1 == flags_of(option_tokens(options@)),
        r.0 is None <==> unknown_of(option_tokens(options@)).len() == 0,
        r.0 matches Some(d) ==> d@ == join_on(unknown_of(option_tokens(options@)), ','),
{
    let n = options.unicode_len();
    let mut start: usize = 0;
    let mut i: usize = 0;
    let mut flags: u64 = 0;
    let mut data = String::new();
    let mut any = false;
    let ghost mut done: Seq<Seq<char>> = Seq::empty();
    assert(options@.take(0) =~= Seq::<char>::empty());
    assert(options@.subrange(0, 0) =~= Seq::<char>::empty());
    assert(done.push(Seq::<char>::empty()) =~= seq![Seq::<char>::empty()]);
    while i < n
        invariant
            n == options@.len(),
            start <= i <= n,
            split_on(options@.take(i as int), ',') == done.push(
                options@.subrange(start as int, i as int),
            ),
            flags == flags_of(done),
            any == (unknown_of(done).len() > 0),
            data@ == join_on(unknown_of(done), ','),
        decreases n - i,
    {
        let c = options.get_char(i);
        let ghost pre = options@.take(i as int);
        assert(options@.take(i + 1).drop_last() =~= pre);
        assert(options@.take(i + 1).last() == c);
        if c == ',' {
            let tok = options.substring_char(start, i);
            add_token(tok, &mut flags, &mut data, &mut any, Ghost(done));
            proof {
                done = done.push(tok@);
            }
            start = i + 1;
            i = i + 1;
            assert(options@.subrange(start as int, i as int) =~= Seq::<char>::empty());
        } else {
            assert(options@.subrange(start as int, i + 1) =~= options@.subrange(
                start as int,
                i as int,
            ).push(c));
            i = i + 1;
            assert(split_on(options@.take(i as int), ',') =~= done.push(
                options@.subrange(start as int, i as int),
            ));
        }
    }
    let tok = options.substring_char(start, n);
    assert(options@.take(n as int) =~= options@);
    add_token(tok, &mut flags, &mut data, &mut any, Ghost(done));
    if any {
        (Some(data), flags)
    } else {
        (None, flags)
    }
}

} // verus!
