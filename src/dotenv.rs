use vstd::prelude::*;

use crate::env::EnvVars;
use crate::text::{chars_of, is_space, trim, trim_bounds, trim_end, trim_start};

verus! {

/// The lines of `s`, split at each `'\n'`; the last one may be empty.
pub open spec fn lines(s: Seq<char>) -> Seq<Seq<char>>
    decreases s.len(),
{
    if s.len() == 0 {
        seq![Seq::empty()]
    } else {
        let prev = lines(s.drop_last());
        if s.last() == '\n' {
            prev.push(Seq::empty())
        } else {
            prev.update(prev.len() - 1, prev.last().push(s.last()))
        }
    }
}

/// The position of the first `'='` in `s`, if there is one.
pub open spec fn eq_index(s: Seq<char>) -> Option<int>
    decreases s.len(),
{
    if s.len() == 0 {
        None
    } else {
        match eq_index(s.drop_last()) {
            Some(i) => Some(i),
            None => if s.last() == '=' {
                Some(s.len() - 1)
            } else {
                None
            },
        }
    }
}

/// A prefix of `s` that holds an `'='` holds the first one of `s`.
proof fn lemma_eq_index_prefix(s: Seq<char>, n: int)
    requires
        0 <= n <= s.len(),
        eq_index(s.take(n)) is Some,
    ensures
        eq_index(s) == eq_index(s.take(n)),
    decreases s.len() - n,
{
    if n < s.len() {
        assert(s.drop_last().take(n) =~= s.take(n));
        lemma_eq_index_prefix(s.drop_last(), n);
    } else {
        assert(s.take(n) =~= s);
    }
}

proof fn lemma_eq_index_bounds(s: Seq<char>)
    ensures
        eq_index(s) matches Some(i) ==> 0 <= i < s.len() && s[i] == '=',
    decreases s.len(),
{
    if s.len() > 0 {
        lemma_eq_index_bounds(s.drop_last());
    }
}

/// The assignment that one line of a `.env` file makes, if any: the line is trimmed,
/// blank and `#` lines make none, and the rest is split at the first `'='`, both
/// sides trimmed.
pub open spec fn entry_of(line: Seq<char>) -> Option<(Seq<char>, Seq<char>)> {
    let t = trim(line);
    if t.len() == 0 || t[0] == '#' {
        None
    } else {
        match eq_index(t) {
            Some(i) => Some((trim(t.subrange(0, i)), trim(t.subrange(i + 1, t.len() as int)))),
            None => None,
        }
    }
}

/// `env` after one line: its assignment is made only where the name is not set yet.
pub open spec fn apply_line(env: Map<Seq<char>, Seq<char>>, line: Seq<char>) -> Map<
    Seq<char>,
    Seq<char>,
> {
    match entry_of(line) {
        Some((k, v)) => if env.contains_key(k) {
            env
        } else {
            env.insert(k, v)
        },
        None => env,
    }
}

/// `env` after the lines `ls`, in order.
pub open spec fn apply_lines(env: Map<Seq<char>, Seq<char>>, ls: Seq<Seq<char>>) -> Map<
    Seq<char>,
    Seq<char>,
>
    decreases ls.len(),
{
    if ls.len() == 0 {
        env
    } else {
        apply_line(apply_lines(env, ls.drop_last()), ls.last())
    }
}

/// `env` after loading the `.env` text `content`.
pub open spec fn loaded(env: Map<Seq<char>, Seq<char>>, content: Seq<char>) -> Map<
    Seq<char>,
    Seq<char>,
> {
    apply_lines(env, lines(content))
}

/// The position in `cs` of the first `'='` of `cs[lo..hi]`.
fn find_eq(cs: &Vec<char>, lo: usize, hi: usize) -> (r: Option<usize>)
    requires
        lo <= hi <= cs.len(),
    ensures
        r is None <==> eq_index(cs@.subrange(lo as int, hi as int)) is None,
        r matches Some(p) ==> lo <= p < hi && eq_index(cs@.subrange(lo as int, hi as int)) == Some(
            p - lo,
        ),
{
    let mut i = lo;
    while i < hi
        invariant
            lo <= i <= hi <= cs.len(),
            eq_index(cs@.subrange(lo as int, i as int)) is None,
        decreases hi - i,
    {
        assert(cs@.subrange(lo as int, i + 1).drop_last() =~= cs@.subrange(lo as int, i as int));
        if cs[i] == '=' {
            assert(cs@.subrange(lo as int, hi as int).take(i + 1 - lo) =~= cs@.subrange(lo as int, i + 1));
            proof {
                lemma_eq_index_prefix(cs@.subrange(lo as int, hi as int), i + 1 - lo);
            }
            return Some(i);
        }
        i = i + 1;
    }
    assert(cs@.subrange(lo as int, hi as int) =~= cs@.subrange(lo as int, i as int));
    None
}

/// Applies the line `cs[lo..hi]` of `content` to `env`.
fn load_line(env: &mut EnvVars, content: &str, cs: &Vec<char>, lo: usize, hi: usize)
    requires
        cs@ == content@,
        lo <= hi <= cs.len(),
    ensures
        final(env)@ == apply_line(old(env)@, cs@.subrange(lo as int, hi as int)),
{
    let ghost line = cs@.subrange(lo as int, hi as int);
    let (a, b) = trim_bounds(cs, lo, hi);
    let ghost t = trim(line);
    if a == b || cs[a] == '#' {
        return;
    }
    match find_eq(cs, a, b) {
        Some(p) => {
            let (ka, kb) = trim_bounds(cs, a, p);
            let (va, vb) = trim_bounds(cs, p + 1, b);
            proof {
                assert(t.subrange(0, p - a) =~= cs@.subrange(a as int, p as int));
                assert(t.subrange(p - a + 1, t.len() as int) =~= cs@.subrange(p + 1, b as int));
            }
            let key = String::from_str(content.substring_char(ka, kb));
            if !env.contains(key.as_str()) {
                let value = String::from_str(content.substring_char(va, vb));
                env.set(key, value);
            }
        },
        None => {},
    }
}

/// Loads the `.env` text `content` into `env`: each line's assignment is made
/// where its name is not set yet, so values already present win.
pub fn init_env_from_dotenv(env: &mut EnvVars, content: &str)
    ensures
        final(env)@ == loaded(old(env)@, content@),
{
    let cs = chars_of(content);
    let n = cs.len();
    let ghost env0 = env@;
    let ghost mut done: Seq<Seq<char>> = Seq::empty();
    let mut start: usize = 0;
    let mut i: usize = 0;
    assert(cs@.take(0) =~= Seq::<char>::empty());
    assert(cs@.subrange(0, 0) =~= Seq::<char>::empty());
    while i < n
        invariant
            n == cs.len(),
            cs@ == content@,
            start <= i <= n,
            lines(cs@.take(i as int)) == done.push(cs@.subrange(start as int, i as int)),
            env@ == apply_lines(env0, done),
        decreases n - i,
    {
        assert(cs@.take(i + 1).drop_last() =~= cs@.take(i as int));
        if cs[i] == '\n' {
            load_line(env, content, &cs, start, i);
            proof {
                let line = cs@.subrange(start as int, i as int);
                assert(done.push(line).drop_last() =~= done);
                done = done.push(line);
                assert(cs@.subrange(i + 1, i + 1) =~= Seq::<char>::empty());
            }
            start = i + 1;
        } else {
            proof {
                assert(cs@.subrange(start as int, i as int).push(cs@[i as int]) =~= cs@.subrange(
                    start as int,
                    i + 1,
                ));
                assert(done.push(cs@.subrange(start as int, i as int)).update(
                    done.len() as int,
                    cs@.subrange(start as int, i + 1),
                ) =~= done.push(cs@.subrange(start as int, i + 1)));
            }
        }
        i = i + 1;
    }
    load_line(env, content, &cs, start, n);
    proof {
        let line = cs@.subrange(start as int, n as int);
        assert(cs@.take(n as int) =~= cs@);
        assert(done.push(line).drop_last() =~= done);
    }
}

proof fn lemma_lines_nonempty(s: Seq<char>)
    ensures
        lines(s).len() >= 1,
    decreases s.len(),
{
    if s.len() > 0 {
        lemma_lines_nonempty(s.drop_last());
    }
}

proof fn lemma_lines_single(s: Seq<char>)
    requires
        forall|j: int| 0 <= j < s.len() ==> s[j] != '\n',
    ensures
        lines(s) == seq![s],
    decreases s.len(),
{
    if s.len() > 0 {
        lemma_lines_single(s.drop_last());
        assert(s.drop_last().push(s.last()) =~= s);
        assert(seq![s.drop_last()].update(0, s.drop_last().push(s.last())) =~= seq![s]);
    } else {
        assert(s =~= Seq::<char>::empty());
    }
}

proof fn lemma_lines_concat(a: Seq<char>, b: Seq<char>)
    ensures
        lines(a + seq!['\n'] + b) == lines(a) + lines(b),
    decreases b.len(),
{
    let x = a + seq!['\n'] + b;
    if b.len() == 0 {
        assert(x.drop_last() =~= a);
        assert(lines(a).push(Seq::empty()) =~= lines(a) + seq![Seq::<char>::empty()]);
    } else {
        assert(x.drop_last() =~= a + seq!['\n'] + b.drop_last());
        lemma_lines_concat(a, b.drop_last());
        lemma_lines_nonempty(b.drop_last());
        let la = lines(a);
        let lb = lines(b.drop_last());
        if b.last() == '\n' {
            assert((la + lb).push(Seq::empty()) =~= la + lb.push(Seq::empty()));
        } else {
            assert((la + lb).update(la.len() + lb.len() - 1, (la + lb).last().push(b.last())) =~= la
                + lb.update(lb.len() - 1, lb.last().push(b.last())));
        }
    }
}

proof fn lemma_apply_lines_concat(env: Map<Seq<char>, Seq<char>>, a: Seq<Seq<char>>, b: Seq<Seq<char>>)
    ensures
        apply_lines(env, a + b) == apply_lines(apply_lines(env, a), b),
    decreases b.len(),
{
    if b.len() == 0 {
        assert(a + b =~= a);
    } else {
        assert((a + b).drop_last() =~= a + b.drop_last());
        lemma_apply_lines_concat(env, a, b.drop_last());
    }
}

proof fn lemma_kept_through_lines(env: Map<Seq<char>, Seq<char>>, ls: Seq<Seq<char>>, k: Seq<char>)
    requires
        env.contains_key(k),
    ensures
        apply_lines(env, ls).contains_key(k),
        apply_lines(env, ls)[k] == env[k],
    decreases ls.len(),
{
    if ls.len() > 0 {
        lemma_kept_through_lines(env, ls.drop_last(), k);
    }
}

proof fn lemma_untouched_through_lines(
    env: Map<Seq<char>, Seq<char>>,
    ls: Seq<Seq<char>>,
    k: Seq<char>,
)
    requires
        forall|j: int| 0 <= j < ls.len() ==> !(entry_of(#[trigger] ls[j]) matches Some(e) && e.0 == k),
    ensures
        apply_lines(env, ls).contains_key(k) == env.contains_key(k),
        apply_lines(env, ls)[k] == env[k],
    decreases ls.len(),
{
    if ls.len() > 0 {
        assert(!(entry_of(ls[ls.len() - 1]) matches Some(e) && e.0 == k));
        lemma_untouched_through_lines(env, ls.drop_last(), k);
    }
}

/// A variable that is already set keeps its value, whatever the `.env` text says.
pub proof fn lemma_present_value_kept(env: Map<Seq<char>, Seq<char>>, content: Seq<char>, k: Seq<char>)
    requires
        env.contains_key(k),
    ensures
        loaded(env, content).contains_key(k),
        loaded(env, content)[k] == env[k],
{
    lemma_kept_through_lines(env, lines(content), k);
}

/// A variable that is not set takes the value of the first line of the `.env` text
/// that assigns it.
pub proof fn lemma_file_value_applied(
    env: Map<Seq<char>, Seq<char>>,
    content: Seq<char>,
    i: int,
    k: Seq<char>,
    v: Seq<char>,
)
    requires
        !env.contains_key(k),
        0 <= i < lines(content).len(),
        entry_of(lines(content)[i]) == Some((k, v)),
        forall|j: int|
            0 <= j < i ==> !(entry_of(#[trigger] lines(content)[j]) matches Some(e) && e.0 == k),
    ensures
        loaded(env, content).contains_key(k),
        loaded(env, content)[k] == v,
{
    let ls = lines(content);
    let before = ls.take(i);
    assert forall|j: int| 0 <= j < before.len() implies !(entry_of(#[trigger] before[j]) matches Some(
        e,
    ) && e.0 == k) by {
        assert(before[j] == ls[j]);
    }
    lemma_untouched_through_lines(env, before, k);
    let mid = apply_line(apply_lines(env, before), ls[i]);
    assert(ls.take(i + 1).drop_last() =~= before);
    assert(apply_lines(env, ls.take(i + 1)) == mid);
    lemma_kept_through_lines(mid, ls.skip(i + 1), k);
    assert(ls =~= ls.take(i + 1) + ls.skip(i + 1));
    lemma_apply_lines_concat(env, ls.take(i + 1), ls.skip(i + 1));
}

proof fn lemma_line_ignored(
    env: Map<Seq<char>, Seq<char>>,
    before: Seq<char>,
    line: Seq<char>,
    after: Seq<char>,
)
    requires
        before.len() == 0 || before.last() == '\n',
        forall|j: int| 0 <= j < line.len() ==> line[j] != '\n',
        entry_of(line) is None,
    ensures
        loaded(env, before + line + seq!['\n'] + after) == loaded(env, before + after),
{
    lemma_lines_single(line);
    lemma_lines_concat(line, after);
    let tail = line + seq!['\n'] + after;
    assert(lines(tail) == seq![line] + lines(after));
    assert(seq![line].drop_last() =~= Seq::<Seq<char>>::empty());
    assert(apply_lines(env, seq![line].drop_last()) == env);
    assert(seq![line].last() == line);
    assert(apply_lines(env, seq![line]) == env);
    if before.len() == 0 {
        assert(before + line + seq!['\n'] + after =~= tail);
        assert(before + after =~= after);
        lemma_apply_lines_concat(env, seq![line], lines(after));
    } else {
        let b0 = before.drop_last();
        assert(before + line + seq!['\n'] + after =~= b0 + seq!['\n'] + tail);
        assert(before + after =~= b0 + seq!['\n'] + after);
        lemma_lines_concat(b0, tail);
        lemma_lines_concat(b0, after);
        let lb = lines(b0);
        assert(lb + (seq![line] + lines(after)) =~= (lb + seq![line]) + lines(after));
        lemma_apply_lines_concat(env, lb + seq![line], lines(after));
        lemma_apply_lines_concat(env, lb, lines(after));
        assert((lb + seq![line]).drop_last() =~= lb);
        assert(apply_lines(env, lb + seq![line]) == apply_lines(env, lb));
    }
}

proof fn lemma_trim_start_avoids(s: Seq<char>, c: char)
    requires
        forall|j: int| 0 <= j < s.len() ==> s[j] != c,
    ensures
        forall|j: int| 0 <= j < trim_start(s).len() ==> trim_start(s)[j] != c,
    decreases s.len(),
{
    if s.len() > 0 && is_space(s[0]) {
        assert forall|j: int| 0 <= j < s.drop_first().len() implies s.drop_first()[j] != c by {
            assert(s.drop_first()[j] == s[j + 1]);
        }
        lemma_trim_start_avoids(s.drop_first(), c);
        assert(trim_start(s) == trim_start(s.drop_first()));
    } else {
        assert(trim_start(s) == s);
    }
}

proof fn lemma_trim_end_avoids(s: Seq<char>, c: char)
    requires
        forall|j: int| 0 <= j < s.len() ==> s[j] != c,
    ensures
        forall|j: int| 0 <= j < trim_end(s).len() ==> trim_end(s)[j] != c,
    decreases s.len(),
{
    if s.len() > 0 && is_space(s.last()) {
        assert forall|j: int| 0 <= j < s.drop_last().len() implies s.drop_last()[j] != c by {
            assert(s.drop_last()[j] == s[j]);
        }
        lemma_trim_end_avoids(s.drop_last(), c);
        assert(trim_end(s) == trim_end(s.drop_last()));
    } else {
        assert(trim_end(s) == s);
    }
}

/// A blank line, a line of white space, or a comment line (one whose first
/// character after white space is `#`) changes nothing when loading.
pub proof fn lemma_blank_or_comment_line_ignored(
    env: Map<Seq<char>, Seq<char>>,
    before: Seq<char>,
    line: Seq<char>,
    after: Seq<char>,
)
    requires
        before.len() == 0 || before.last() == '\n',
        forall|j: int| 0 <= j < line.len() ==> line[j] != '\n',
        trim(line).len() == 0 || trim(line)[0] == '#',
    ensures
        loaded(env, before + line + seq!['\n'] + after) == loaded(env, before + after),
{
    lemma_line_ignored(env, before, line, after);
}

/// A line without `'='` changes nothing when loading.
pub proof fn lemma_line_without_eq_ignored(
    env: Map<Seq<char>, Seq<char>>,
    before: Seq<char>,
    line: Seq<char>,
    after: Seq<char>,
)
    requires
        before.len() == 0 || before.last() == '\n',
        forall|j: int| 0 <= j < line.len() ==> line[j] != '\n' && line[j] != '=',
    ensures
        loaded(env, before + line + seq!['\n'] + after) == loaded(env, before + after),
{
    lemma_trim_start_avoids(line, '=');
    lemma_trim_end_avoids(trim_start(line), '=');
    lemma_eq_index_bounds(trim(line));
    lemma_line_ignored(env, before, line, after);
}

} // verus!
