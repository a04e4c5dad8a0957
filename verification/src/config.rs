//! The persisted configuration format.
//!
//! The backing resource holds a flat, human-editable textual mapping: one line
//! per switch, written `name: true` or `name: false` and terminated by a
//! newline.  A name is any non-empty run of characters other than `:` and the
//! line break, and no name may occur twice.  This module gives the format an
//! exact specification — a character-level parsing machine and a renderer —
//! together with the executable parser and renderer proved against it, and the
//! round-trip law that the store's persistence relies on.

use vstd::prelude::*;
use crate::errors::StoreError;
use crate::text::str_eq;

verus! {

/// A character that may appear in a switch name.
pub open spec fn is_name_char(c: char) -> bool {
    c != ':' && c != '\n'
}

/// A well-formed switch name: non-empty, free of `:` and line breaks.
pub open spec fn valid_name(n: Seq<char>) -> bool {
    n.len() > 0 && forall|i: int| 0 <= i < n.len() ==> is_name_char(#[trigger] n[i])
}

/// Decides [`valid_name`], so a caller can test a name before handing it to
/// the store.
pub fn is_valid_name(name: &str) -> (r: bool)
    ensures
        r == valid_name(name@),
{
    let n = name.unicode_len();
    if n == 0 {
        return false;
    }
    let mut i: usize = 0;
    while i < n
        invariant
            i <= n,
            n == name@.len(),
            forall|j: int| 0 <= j < i ==> is_name_char(#[trigger] name@[j]),
        decreases n - i,
    {
        let c = name.get_char(i);
        if c == ':' || c == '\n' {
            return false;
        }
        i += 1;
    }
    true
}

/// Whether some entry of `es` carries the name `n`.
pub open spec fn contains_name(es: Seq<(Seq<char>, bool)>, n: Seq<char>) -> bool {
    exists|j: int| 0 <= j < es.len() && (#[trigger] es[j]).0 == n
}

/// A well-formed entry list: every name valid, no name twice.
pub open spec fn wf_entries(es: Seq<(Seq<char>, bool)>) -> bool {
    &&& forall|i: int| 0 <= i < es.len() ==> valid_name((#[trigger] es[i]).0)
    &&& forall|i: int, j: int|
        0 <= i < j < es.len() ==> (#[trigger] es[i]).0 != (#[trigger] es[j]).0
}

/// Where the parsing machine stands within the current line.
pub enum LineMode {
    /// Reading name characters; `name` holds what has been read so far.
    InName { name: Seq<char> },
    /// The `:` after a name has been read; a single space must follow.
    AfterColon { name: Seq<char> },
    /// Reading the boolean word; `value` holds what has been read so far.
    InValue { name: Seq<char>, value: Seq<char> },
}

/// The full state of the parsing machine.
pub struct ParserState {
    /// Entries of the lines already completed, in file order.
    pub done: Seq<(Seq<char>, bool)>,
    /// Position within the current line.
    pub mode: LineMode,
}

/// The state in which parsing begins: nothing read yet.
pub open spec fn start_state() -> ParserState {
    ParserState { done: Seq::empty(), mode: LineMode::InName { name: Seq::empty() } }
}

/// The boolean a completed value word stands for, if it is one of the two.
pub open spec fn commit_value(v: Seq<char>) -> Option<bool> {
    if v == "true"@ {
        Some(true)
    } else if v == "false"@ {
        Some(false)
    } else {
        None
    }
}

/// One step of the parsing machine: consume `c`, or reject the text.
pub open spec fn step(st: ParserState, c: char) -> Option<ParserState> {
    match st.mode {
        LineMode::InName { name } => {
            if c == ':' {
                if name.len() == 0 {
                    None
                } else {
                    Some(ParserState { done: st.done, mode: LineMode::AfterColon { name } })
                }
            } else if c == '\n' {
                None
            } else {
                Some(
                    ParserState { done: st.done, mode: LineMode::InName { name: name.push(c) } },
                )
            }
        },
        LineMode::AfterColon { name } => {
            if c == ' ' {
                Some(
                    ParserState {
                        done: st.done,
                        mode: LineMode::InValue { name, value: Seq::empty() },
                    },
                )
            } else {
                None
            }
        },
        LineMode::InValue { name, value } => {
            if c == '\n' {
                match commit_value(value) {
                    Some(b) => if contains_name(st.done, name) {
                        None
                    } else {
                        Some(
                            ParserState {
                                done: st.done.push((name, b)),
                                mode: LineMode::InName { name: Seq::empty() },
                            },
                        )
                    },
                    None => None,
                }
            } else {
                Some(
                    ParserState {
                        done: st.done,
                        mode: LineMode::InValue { name, value: value.push(c) },
                    },
                )
            }
        },
    }
}

/// What the machine yields once the text ends: the entries, if the text ended
/// at a line boundary.
pub open spec fn finish(st: ParserState) -> Option<Seq<(Seq<char>, bool)>> {
    match st.mode {
        LineMode::InName { name } => if name.len() == 0 {
            Some(st.done)
        } else {
            None
        },
        _ => None,
    }
}

/// Run the machine over `s` from position `i` in state `st`.
pub open spec fn run_parser(s: Seq<char>, i: int, st: ParserState) -> Option<
    Seq<(Seq<char>, bool)>,
>
    decreases s.len() - i,
{
    if i < 0 || i >= s.len() {
        finish(st)
    } else {
        match step(st, s[i]) {
            None => None,
            Some(st2) => run_parser(s, i + 1, st2),
        }
    }
}

/// What a configuration text means: the entry list, or nothing if malformed.
pub open spec fn parse_cfg(s: Seq<char>) -> Option<Seq<(Seq<char>, bool)>> {
    run_parser(s, 0, start_state())
}

/// The textual form of one boolean state.
pub open spec fn bool_text(v: bool) -> Seq<char> {
    if v {
        "true"@
    } else {
        "false"@
    }
}

/// The textual form of one entry's line, newline included.
pub open spec fn render_line(name: Seq<char>, v: bool) -> Seq<char> {
    name + ": "@ + bool_text(v) + "\n"@
}

/// The textual form of a whole entry list.
pub open spec fn render(es: Seq<(Seq<char>, bool)>) -> Seq<char>
    decreases es.len(),
{
    if es.len() == 0 {
        Seq::empty()
    } else {
        render_line(es[0].0, es[0].1) + render(es.skip(1))
    }
}

/// The view of an executable entry list.
pub open spec fn entries_view(es: Seq<(String, bool)>) -> Seq<(Seq<char>, bool)> {
    es.map_values(|p: (String, bool)| (p.0@, p.1))
}

/// The mapping an entry list stands for.  The first entry of a name wins;
/// for well-formed lists no name occurs twice, so the choice is immaterial.
pub open spec fn as_map(es: Seq<(Seq<char>, bool)>) -> Map<Seq<char>, bool>
    decreases es.len(),
{
    if es.len() == 0 {
        Map::empty()
    } else {
        as_map(es.skip(1)).insert(es[0].0, es[0].1)
    }
}

/// The entry list after the name `n` is set to `v`: the first entry of that
/// name is replaced in place, or a new entry is appended.
pub open spec fn upsert(es: Seq<(Seq<char>, bool)>, n: Seq<char>, v: bool) -> Seq<
    (Seq<char>, bool),
>
    decreases es.len(),
{
    if es.len() == 0 {
        seq![(n, v)]
    } else if es[0].0 == n {
        seq![(n, v)] + es.skip(1)
    } else {
        seq![es[0]] + upsert(es.skip(1), n, v)
    }
}

/// The names of `upsert(es, n, v)` are those of `es` together with `n`.
pub proof fn lemma_upsert_names(es: Seq<(Seq<char>, bool)>, n: Seq<char>, v: bool, m: Seq<char>)
    ensures
        contains_name(upsert(es, n, v), m) <==> (contains_name(es, m) || m == n),
    decreases es.len(),
{
    if es.len() == 0 {
        assert(upsert(es, n, v) == seq![(n, v)]);
        assert(contains_name(seq![(n, v)], m) <==> m == n) by {
            if m == n {
                assert(seq![(n, v)][0].0 == m);
            }
        }
        assert(!contains_name(es, m));
    } else if es[0].0 == n {
        let u = seq![(n, v)] + es.skip(1);
        assert(upsert(es, n, v) == u);
        if contains_name(u, m) {
            let j = choose|j: int| 0 <= j < u.len() && (#[trigger] u[j]).0 == m;
            if j == 0 {
                assert(m == n);
            } else {
                assert(es[j] == u[j]);
                assert(contains_name(es, m));
            }
        }
        if m == n {
            assert(u[0].0 == m);
        }
        if contains_name(es, m) && m != n {
            let j = choose|j: int| 0 <= j < es.len() && (#[trigger] es[j]).0 == m;
            assert(j != 0);
            assert(u[j] == es[j]);
        }
    } else {
        lemma_upsert_names(es.skip(1), n, v, m);
        let u = seq![es[0]] + upsert(es.skip(1), n, v);
        assert(upsert(es, n, v) == u);
        if contains_name(u, m) {
            let j = choose|j: int| 0 <= j < u.len() && (#[trigger] u[j]).0 == m;
            if j == 0 {
                assert(es[0].0 == m);
            } else {
                assert(u[j] == upsert(es.skip(1), n, v)[j - 1]);
                assert(contains_name(upsert(es.skip(1), n, v), m));
            }
        }
        if m == n {
            assert(contains_name(upsert(es.skip(1), n, v), m));
            let j = choose|j: int|
                0 <= j < upsert(es.skip(1), n, v).len() && (#[trigger] upsert(es.skip(1), n, v)[j]).0
                    == m;
            assert(u[j + 1].0 == m);
        }
        if contains_name(es, m) {
            let j = choose|j: int| 0 <= j < es.len() && (#[trigger] es[j]).0 == m;
            if j == 0 {
                assert(u[0].0 == m);
            } else {
                assert(es.skip(1)[j - 1] == es[j]);
                assert(contains_name(es.skip(1), m));
                let k = choose|k: int|
                    0 <= k < upsert(es.skip(1), n, v).len() && (#[trigger] upsert(
                        es.skip(1),
                        n,
                        v,
                    )[k]).0 == m;
                assert(u[k + 1].0 == m);
            }
        }
    }
}

/// Setting a well-formed name keeps an entry list well-formed.
pub proof fn lemma_upsert_wf(es: Seq<(Seq<char>, bool)>, n: Seq<char>, v: bool)
    requires
        wf_entries(es),
        valid_name(n),
    ensures
        wf_entries(upsert(es, n, v)),
    decreases es.len(),
{
    if es.len() == 0 {
    } else if es[0].0 == n {
        let u = seq![(n, v)] + es.skip(1);
        assert forall|i: int, j: int| 0 <= i < j < u.len() implies (#[trigger] u[i]).0 != (
        #[trigger] u[j]).0 by {
            if i == 0 {
                assert(u[j] == es[j]);
                assert(es[0].0 != es[j].0);
            } else {
                assert(u[i] == es[i]);
                assert(u[j] == es[j]);
            }
        }
        assert forall|i: int| 0 <= i < u.len() implies valid_name((#[trigger] u[i]).0) by {
            if i > 0 {
                assert(u[i] == es[i]);
            }
        }
    } else {
        assert(wf_entries(es.skip(1))) by {
            assert(forall|i: int|
                0 <= i < es.skip(1).len() ==> (#[trigger] es.skip(1)[i]) == es[i + 1]);
        }
        lemma_upsert_wf(es.skip(1), n, v);
        let r = upsert(es.skip(1), n, v);
        let u = seq![es[0]] + r;
        assert forall|i: int| 0 <= i < u.len() implies valid_name((#[trigger] u[i]).0) by {
            if i > 0 {
                assert(u[i] == r[i - 1]);
            }
        }
        assert forall|i: int, j: int| 0 <= i < j < u.len() implies (#[trigger] u[i]).0 != (
        #[trigger] u[j]).0 by {
            if i == 0 {
                assert(u[j] == r[j - 1]);
                if u[0].0 == r[j - 1].0 {
                    assert(contains_name(r, es[0].0));
                    lemma_upsert_names(es.skip(1), n, v, es[0].0);
                    if contains_name(es.skip(1), es[0].0) {
                        let k = choose|k: int|
                            0 <= k < es.skip(1).len() && (#[trigger] es.skip(1)[k]).0 == es[0].0;
                        assert(es[k + 1].0 == es[0].0);
                    }
                }
            } else {
                assert(u[i] == r[i - 1]);
                assert(u[j] == r[j - 1]);
            }
        }
    }
}

/// `upsert` means `insert` on the mapping an entry list stands for.
pub proof fn lemma_as_map_upsert(es: Seq<(Seq<char>, bool)>, n: Seq<char>, v: bool)
    ensures
        as_map(upsert(es, n, v)) == as_map(es).insert(n, v),
    decreases es.len(),
{
    if es.len() == 0 {
        let u = seq![(n, v)];
        assert(u.skip(1) =~= Seq::<(Seq<char>, bool)>::empty());
        assert(u[0] == (n, v));
        assert(as_map(u.skip(1)) == Map::<Seq<char>, bool>::empty());
        assert(as_map(u) == as_map(u.skip(1)).insert(n, v));
        assert(as_map(es) == Map::<Seq<char>, bool>::empty());
    } else if es[0].0 == n {
        let u = seq![(n, v)] + es.skip(1);
        assert(u[0] == (n, v));
        assert(u.skip(1) =~= es.skip(1));
        assert(as_map(u) == as_map(es.skip(1)).insert(n, v));
        assert(as_map(es) == as_map(es.skip(1)).insert(n, es[0].1));
        assert(as_map(es.skip(1)).insert(n, es[0].1).insert(n, v) =~= as_map(es.skip(1)).insert(
            n,
            v,
        ));
    } else {
        lemma_as_map_upsert(es.skip(1), n, v);
        let r = upsert(es.skip(1), n, v);
        let u = seq![es[0]] + r;
        assert(u[0] == es[0]);
        assert(u.skip(1) =~= r);
        assert(as_map(u) == as_map(r).insert(es[0].0, es[0].1));
        assert(as_map(r) == as_map(es.skip(1)).insert(n, v));
        assert(as_map(es.skip(1)).insert(n, v).insert(es[0].0, es[0].1) =~= as_map(
            es.skip(1),
        ).insert(es[0].0, es[0].1).insert(n, v));
    }
}

/// The mapping holds exactly the names that the entry list holds.
pub proof fn lemma_as_map_names(es: Seq<(Seq<char>, bool)>, n: Seq<char>)
    ensures
        as_map(es).contains_key(n) <==> contains_name(es, n),
    decreases es.len(),
{
    if es.len() == 0 {
    } else {
        lemma_as_map_names(es.skip(1), n);
        if es[0].0 == n {
            assert(contains_name(es, n));
        } else {
            if contains_name(es.skip(1), n) {
                let j = choose|j: int|
                    0 <= j < es.skip(1).len() && (#[trigger] es.skip(1)[j]).0 == n;
                assert(es[j + 1].0 == n);
            }
            if contains_name(es, n) {
                let j = choose|j: int| 0 <= j < es.len() && (#[trigger] es[j]).0 == n;
                assert(j != 0);
                assert(es.skip(1)[j - 1] == es[j]);
                assert(contains_name(es.skip(1), n));
            }
        }
    }
}

/// The value the mapping gives a name is the value of its first entry.
pub proof fn lemma_as_map_at(es: Seq<(Seq<char>, bool)>, n: Seq<char>, j: int)
    requires
        0 <= j < es.len(),
        es[j].0 == n,
        forall|k: int| 0 <= k < j ==> (#[trigger] es[k]).0 != n,
    ensures
        as_map(es).contains_key(n),
        as_map(es)[n] == es[j].1,
    decreases j,
{
    if j == 0 {
    } else {
        assert(es.skip(1)[j - 1] == es[j]);
        assert(forall|k: int| 0 <= k < j - 1 ==> (#[trigger] es.skip(1)[k]) == es[k + 1]);
        lemma_as_map_at(es.skip(1), n, j - 1);
    }
}

/// The machine state at a line boundary, with `done` lines behind it.
pub open spec fn at_line_start(done: Seq<(Seq<char>, bool)>) -> ParserState {
    ParserState { done, mode: LineMode::InName { name: Seq::empty() } }
}

/// Scanning `k` name characters extends the partial name by exactly them.
proof fn lemma_run_name(s: Seq<char>, i: int, done: Seq<(Seq<char>, bool)>, pre: Seq<char>, k: int)
    requires
        0 <= i,
        0 <= k,
        i + k <= s.len(),
        forall|j: int| i <= j < i + k ==> is_name_char(#[trigger] s[j]),
    ensures
        run_parser(s, i, (ParserState { done, mode: LineMode::InName { name: pre } }))
            == run_parser(
            s,
            i + k,
            (ParserState { done, mode: LineMode::InName { name: pre + s.subrange(i, i + k) } }),
        ),
    decreases k,
{
    if k == 0 {
        assert(pre + s.subrange(i, i) =~= pre);
    } else {
        let c = s[i];
        assert(is_name_char(c));
        let st2 = ParserState { done, mode: LineMode::InName { name: pre.push(c) } };
        assert(step(ParserState { done, mode: LineMode::InName { name: pre } }, c) == Some(st2));
        lemma_run_name(s, i + 1, done, pre.push(c), k - 1);
        assert(pre.push(c) + s.subrange(i + 1, i + k) =~= pre + s.subrange(i, i + k));
    }
}

/// Scanning `k` non-newline characters extends the partial value by them.
proof fn lemma_run_value(
    s: Seq<char>,
    i: int,
    done: Seq<(Seq<char>, bool)>,
    name: Seq<char>,
    pre: Seq<char>,
    k: int,
)
    requires
        0 <= i,
        0 <= k,
        i + k <= s.len(),
        forall|j: int| i <= j < i + k ==> (#[trigger] s[j]) != '\n',
    ensures
        run_parser(s, i, (ParserState { done, mode: LineMode::InValue { name, value: pre } }))
            == run_parser(
            s,
            i + k,
            (ParserState {
                done,
                mode: LineMode::InValue { name, value: pre + s.subrange(i, i + k) },
            }),
        ),
    decreases k,
{
    if k == 0 {
        assert(pre + s.subrange(i, i) =~= pre);
    } else {
        let c = s[i];
        let st2 = ParserState { done, mode: LineMode::InValue { name, value: pre.push(c) } };
        assert(step(ParserState { done, mode: LineMode::InValue { name, value: pre } }, c)
            == Some(st2));
        lemma_run_value(s, i + 1, done, name, pre.push(c), k - 1);
        assert(pre.push(c) + s.subrange(i + 1, i + k) =~= pre + s.subrange(i, i + k));
    }
}

/// Scanning one rendered line commits exactly its entry.
proof fn lemma_run_line(s: Seq<char>, i: int, done: Seq<(Seq<char>, bool)>, name: Seq<char>, v: bool)
    requires
        0 <= i,
        valid_name(name),
        !contains_name(done, name),
        i + render_line(name, v).len() <= s.len(),
        s.subrange(i, i + render_line(name, v).len() as int) == render_line(name, v),
    ensures
        run_parser(s, i, at_line_start(done)) == run_parser(
            s,
            i + render_line(name, v).len() as int,
            at_line_start(done.push((name, v))),
        ),
{
    reveal_strlit(": ");
    reveal_strlit("true");
    reveal_strlit("false");
    reveal_strlit("\n");
    let ln = name.len() as int;
    let tl = bool_text(v).len() as int;
    let rl = render_line(name, v).len() as int;
    assert(rl == ln + 2 + tl + 1);
    assert forall|j: int| 0 <= j < rl implies s[i + j] == render_line(name, v)[j] by {
        assert(s.subrange(i, i + rl)[j] == s[i + j]);
    }
    // The name characters.
    assert forall|j: int| i <= j < i + ln implies is_name_char(#[trigger] s[j]) by {
        assert(render_line(name, v)[j - i] == name[j - i]);
    }
    lemma_run_name(s, i, done, Seq::empty(), ln);
    let st_name = ParserState { done, mode: LineMode::InName { name } };
    assert(Seq::empty() + s.subrange(i, i + ln) =~= name) by {
        assert forall|j: int| 0 <= j < ln implies s.subrange(i, i + ln)[j] == name[j] by {
            assert(render_line(name, v)[j] == name[j]);
        }
    }
    // The separator.
    assert(s[i + ln] == ':') by {
        assert(render_line(name, v)[ln] == ": "@[0]);
    }
    assert(s[i + ln + 1] == ' ') by {
        assert(render_line(name, v)[ln + 1] == ": "@[1]);
    }
    assert(run_parser(s, i, at_line_start(done)) == run_parser(s, i + ln, st_name));
    let st_colon = ParserState { done, mode: LineMode::AfterColon { name } };
    assert(step(st_name, ':') == Some(st_colon));
    assert(run_parser(s, i + ln, st_name) == run_parser(s, i + ln + 1, st_colon));
    let st_value = ParserState { done, mode: LineMode::InValue { name, value: Seq::empty() } };
    assert(step(st_colon, ' ') == Some(st_value));
    assert(run_parser(s, i + ln + 1, st_colon) == run_parser(s, i + ln + 2, st_value));
    // The value word.
    assert forall|j: int| i + ln + 2 <= j < i + ln + 2 + tl implies (#[trigger] s[j]) != '\n' by {
        assert(render_line(name, v)[j - i] == bool_text(v)[j - i - ln - 2]);
    }
    lemma_run_value(s, i + ln + 2, done, name, Seq::empty(), tl);
    assert(Seq::empty() + s.subrange(i + ln + 2, i + ln + 2 + tl) =~= bool_text(v)) by {
        assert forall|j: int| 0 <= j < tl implies s.subrange(i + ln + 2, i + ln + 2 + tl)[j]
            == bool_text(v)[j] by {
            assert(render_line(name, v)[ln + 2 + j] == bool_text(v)[j]);
        }
    }
    // The line break commits the entry.
    assert(s[i + ln + 2 + tl] == '\n') by {
        assert(render_line(name, v)[ln + 2 + tl] == "\n"@[0]);
    }
    assert(commit_value(bool_text(v)) == Some(v));
    let st_full = ParserState { done, mode: LineMode::InValue { name, value: bool_text(v) } };
    assert(run_parser(s, i + ln + 2, st_value) == run_parser(s, i + ln + 2 + tl, st_full)) by {
        assert(Seq::empty() + s.subrange(i + ln + 2, i + ln + 2 + tl) == bool_text(v));
    }
    let st_done = at_line_start(done.push((name, v)));
    assert(step(st_full, '\n') == Some(st_done));
    assert(run_parser(s, i + ln + 2 + tl, st_full) == run_parser(s, i + rl, st_done));
}

/// Scanning the rendered text of a whole entry list commits all its entries.
proof fn lemma_run_render(s: Seq<char>, i: int, done: Seq<(Seq<char>, bool)>, es: Seq<(Seq<char>, bool)>)
    requires
        0 <= i <= s.len(),
        s.subrange(i, s.len() as int) == render(es),
        wf_entries(es),
        forall|j: int| 0 <= j < es.len() ==> !contains_name(done, (#[trigger] es[j]).0),
    ensures
        run_parser(s, i, at_line_start(done)) == Some(done + es),
    decreases es.len(),
{
    if es.len() == 0 {
        assert(s.subrange(i, s.len() as int).len() == 0);
        assert(i == s.len());
        assert(done + es =~= done);
    } else {
        let name = es[0].0;
        let v = es[0].1;
        let rl = render_line(name, v).len() as int;
        let rest = render(es.skip(1));
        assert(render(es) == render_line(name, v) + rest);
        assert(s.len() - i == rl + rest.len());
        assert forall|j: int| 0 <= j < s.len() - i implies s[i + j] == render(es)[j] by {
            assert(s.subrange(i, s.len() as int)[j] == s[i + j]);
        }
        assert(s.subrange(i, i + rl) =~= render_line(name, v)) by {
            assert forall|j: int| 0 <= j < rl implies s.subrange(i, i + rl)[j] == render_line(
                name,
                v,
            )[j] by {
                assert(s[i + j] == render(es)[j]);
                assert(render(es)[j] == render_line(name, v)[j]);
            }
        }
        lemma_run_line(s, i, done, name, v);
        assert(s.subrange(i + rl, s.len() as int) =~= rest) by {
            assert forall|j: int| 0 <= j < rest.len() implies s.subrange(i + rl, s.len() as int)[j]
                == rest[j] by {
                assert(s[i + rl + j] == render(es)[rl + j]);
                assert(render(es)[rl + j] == rest[j]);
            }
        }
        assert(wf_entries(es.skip(1))) by {
            assert(forall|k: int|
                0 <= k < es.skip(1).len() ==> (#[trigger] es.skip(1)[k]) == es[k + 1]);
        }
        let done2 = done.push((name, v));
        assert forall|j: int| 0 <= j < es.skip(1).len() implies !contains_name(
            done2,
            (#[trigger] es.skip(1)[j]).0,
        ) by {
            assert(es.skip(1)[j] == es[j + 1]);
            assert(!contains_name(done, es[j + 1].0));
            assert(es[j + 1].0 != name);
            if contains_name(done2, es[j + 1].0) {
                let k = choose|k: int|
                    0 <= k < done2.len() && (#[trigger] done2[k]).0 == es[j + 1].0;
                if k < done.len() {
                    assert(done[k] == done2[k]);
                    assert(contains_name(done, es[j + 1].0));
                } else {
                    assert(done2[k] == (name, v));
                }
            }
        }
        lemma_run_render(s, i + rl, done2, es.skip(1));
        assert(done2 + es.skip(1) =~= done + es);
    }
}

/// Law: the renderer and the parser are inverse.  The rendered text of any
/// well-formed entry list parses back to exactly that list, so a mapping
/// written through `render` is never lost or altered by a later load.
pub proof fn lemma_render_round_trip(es: Seq<(Seq<char>, bool)>)
    requires
        wf_entries(es),
    ensures
        parse_cfg(render(es)) == Some(es),
{
    let s = render(es);
    assert(s.subrange(0, s.len() as int) =~= s);
    assert(start_state() == at_line_start(Seq::empty()));
    lemma_run_render(s, 0, Seq::empty(), es);
    assert(Seq::empty() + es =~= es);
}

/// A machine state that can arise while scanning: completed lines are well
/// formed and the current line's name is a run of name characters.
pub open spec fn state_wf(st: ParserState) -> bool {
    &&& wf_entries(st.done)
    &&& match st.mode {
        LineMode::InName { name } => forall|i: int|
            0 <= i < name.len() ==> is_name_char(#[trigger] name[i]),
        LineMode::AfterColon { name } => valid_name(name),
        LineMode::InValue { name, value } => valid_name(name),
    }
}

/// Running the machine from a well-formed state yields well-formed entries.
proof fn lemma_run_state_wf(s: Seq<char>, i: int, st: ParserState)
    requires
        state_wf(st),
    ensures
        match run_parser(s, i, st) {
            Some(es) => wf_entries(es),
            None => true,
        },
    decreases s.len() - i,
{
    if i < 0 || i >= s.len() {
    } else {
        match step(st, s[i]) {
            None => {},
            Some(st2) => {
                assert(state_wf(st2)) by {
                    if let LineMode::InValue { name, value } = st.mode {
                        if s[i] == '\n' && commit_value(value) is Some && !contains_name(
                            st.done,
                            name,
                        ) {
                            let b = commit_value(value)->0;
                            let done2 = st.done.push((name, b));
                            assert forall|p: int, q: int| 0 <= p < q < done2.len() implies (
                            #[trigger] done2[p]).0 != (#[trigger] done2[q]).0 by {
                                if q == done2.len() - 1 {
                                    assert(done2[p] == st.done[p]);
                                    assert(st.done[p].0 != name);
                                } else {
                                    assert(done2[p] == st.done[p]);
                                    assert(done2[q] == st.done[q]);
                                }
                            }
                            assert forall|p: int| 0 <= p < done2.len() implies valid_name((
                            #[trigger] done2[p]).0) by {
                                if p < st.done.len() {
                                    assert(done2[p] == st.done[p]);
                                }
                            }
                        }
                    }
                }
                lemma_run_state_wf(s, i + 1, st2);
            },
        }
    }
}

/// Law: whatever a text parses to is a well-formed entry list — every name
/// valid, no name twice.
pub proof fn lemma_parse_wf(s: Seq<char>)
    ensures
        match parse_cfg(s) {
            Some(es) => wf_entries(es),
            None => true,
        },
{
    lemma_run_state_wf(s, 0, start_state());
}

/// Rendering one more entry appends exactly its line.
proof fn lemma_render_snoc(es: Seq<(Seq<char>, bool)>, e: (Seq<char>, bool))
    ensures
        render(es.push(e)) == render(es) + render_line(e.0, e.1),
    decreases es.len(),
{
    if es.len() == 0 {
        assert(es.push(e)[0] == e);
        assert(es.push(e).skip(1) =~= Seq::<(Seq<char>, bool)>::empty());
        assert(render(Seq::<(Seq<char>, bool)>::empty()) == Seq::<char>::empty());
        assert(render_line(e.0, e.1) + Seq::<char>::empty() =~= render_line(e.0, e.1));
        assert(Seq::<char>::empty() + render_line(e.0, e.1) =~= render_line(e.0, e.1));
    } else {
        assert(es.push(e)[0] == es[0]);
        assert(es.push(e).skip(1) =~= es.skip(1).push(e));
        lemma_render_snoc(es.skip(1), e);
        assert((render_line(es[0].0, es[0].1) + render(es.skip(1))) + render_line(e.0, e.1)
            =~= render_line(es[0].0, es[0].1) + (render(es.skip(1)) + render_line(e.0, e.1)));
    }
}

/// Serialize an entry list into the persisted textual form.
pub fn render_config(entries: &Vec<(String, bool)>) -> (r: String)
    ensures
        r@ == render(entries_view(entries@)),
{
    let mut out = String::new();
    let n = entries.len();
    let mut i: usize = 0;
    while i < n
        invariant
            i <= n,
            n == entries@.len(),
            out@ == render(entries_view(entries@).take(i as int)),
        decreases n - i,
    {
        out.append(entries[i].0.as_str());
        out.append(": ");
        if entries[i].1 {
            out.append("true");
        } else {
            out.append("false");
        }
        out.append("\n");
        proof {
            let ev = entries_view(entries@);
            assert(ev[i as int] == (entries@[i as int].0@, entries@[i as int].1));
            assert(ev.take(i as int + 1) =~= ev.take(i as int).push(ev[i as int]));
            lemma_render_snoc(ev.take(i as int), ev[i as int]);
            assert(out@ =~= render(ev.take(i as int)) + render_line(
                ev[i as int].0,
                ev[i as int].1,
            ));
        }
        i += 1;
    }
    proof {
        assert(entries_view(entries@).take(n as int) =~= entries_view(entries@));
    }
    out
}

/// The executable scanner's position within a line; the accumulated text
/// lives in its own locals.
#[derive(Clone, Copy)]
enum ScanMode {
    InName,
    AfterColon,
    InValue,
}

/// The machine state that the scanner's locals stand for.
spec fn scan_state(
    done: Seq<(String, bool)>,
    mode: ScanMode,
    name: Seq<char>,
    value: Seq<char>,
) -> ParserState {
    ParserState {
        done: entries_view(done),
        mode: match mode {
            ScanMode::InName => LineMode::InName { name },
            ScanMode::AfterColon => LineMode::AfterColon { name },
            ScanMode::InValue => LineMode::InValue { name, value },
        },
    }
}

/// Whether some committed entry already carries the name `n`.
fn contains_entry(es: &Vec<(String, bool)>, n: &str) -> (r: bool)
    ensures
        r == contains_name(entries_view(es@), n@),
{
    let m = es.len();
    let mut j: usize = 0;
    while j < m
        invariant
            j <= m,
            m == es@.len(),
            forall|k: int| 0 <= k < j ==> (#[trigger] entries_view(es@)[k]).0 != n@,
        decreases m - j,
    {
        proof {
            assert(entries_view(es@)[j as int] == (es@[j as int].0@, es@[j as int].1));
        }
        if str_eq(es[j].0.as_str(), n) {
            return true;
        }
        j += 1;
    }
    proof {
        if contains_name(entries_view(es@), n@) {
            let k = choose|k: int|
                0 <= k < entries_view(es@).len() && (#[trigger] entries_view(es@)[k]).0 == n@;
            assert((entries_view(es@)[k]).0 != n@);
        }
    }
    false
}

/// Parse the persisted textual form back into an entry list.
///
/// The text is accepted exactly when the specification-level machine accepts
/// it; anything else is `ConfigMalformed`.
pub fn parse_config(text: &str) -> (r: Result<Vec<(String, bool)>, StoreError>)
    ensures
        match r {
            Ok(es) => parse_cfg(text@) == Some(entries_view(es@)) && wf_entries(entries_view(es@)),
            Err(e) => parse_cfg(text@) is None && e == StoreError::ConfigMalformed,
        },
{
    proof {
        lemma_parse_wf(text@);
    }
    let n = text.unicode_len();
    let mut done: Vec<(String, bool)> = Vec::new();
    let mut mode = ScanMode::InName;
    let mut name = String::new();
    let mut value = String::new();
    let mut i: usize = 0;
    proof {
        assert(entries_view(done@) =~= Seq::<(Seq<char>, bool)>::empty());
        assert(scan_state(done@, mode, name@, value@) == start_state());
    }
    while i < n
        invariant
            i <= n,
            n == text@.len(),
            run_parser(text@, i as int, scan_state(done@, mode, name@, value@)) == parse_cfg(
                text@,
            ),
        decreases n - i,
    {
        let c = text.get_char(i);
        let ghost st_old = scan_state(done@, mode, name@, value@);
        match mode {
            ScanMode::InName => {
                if c == ':' {
                    if name.unicode_len() == 0 {
                        proof {
                            assert(run_parser(text@, i as int, st_old) is None);
                        }
                        return Err(StoreError::ConfigMalformed);
                    }
                    mode = ScanMode::AfterColon;
                } else if c == '\n' {
                    proof {
                        assert(run_parser(text@, i as int, st_old) is None);
                    }
                    return Err(StoreError::ConfigMalformed);
                } else {
                    name.push(c);
                }
            },
            ScanMode::AfterColon => {
                if c == ' ' {
                    mode = ScanMode::InValue;
                    value = String::new();
                } else {
                    proof {
                        assert(run_parser(text@, i as int, st_old) is None);
                    }
                    return Err(StoreError::ConfigMalformed);
                }
            },
            ScanMode::InValue => {
                if c == '\n' {
                    let is_true = str_eq(value.as_str(), "true");
                    let is_false = str_eq(value.as_str(), "false");
                    if is_true || is_false {
                        if contains_entry(&done, name.as_str()) {
                            proof {
                                assert(run_parser(text@, i as int, st_old) is None);
                            }
                            return Err(StoreError::ConfigMalformed);
                        }
                        let ghost done_old = done@;
                        let ghost committed = name@;
                        done.push((name, is_true));
                        name = String::new();
                        mode = ScanMode::InName;
                        proof {
                            assert(entries_view(done@) =~= entries_view(done_old).push(
                                (committed, is_true),
                            ));
                        }
                    } else {
                        proof {
                            assert(run_parser(text@, i as int, st_old) is None);
                        }
                        return Err(StoreError::ConfigMalformed);
                    }
                } else {
                    value.push(c);
                }
            },
        }
        proof {
            let st_new = scan_state(done@, mode, name@, value@);
            assert(step(st_old, text@[i as int]) == Some(st_new));
            assert(run_parser(text@, i as int, st_old) == run_parser(
                text@,
                i as int + 1,
                st_new,
            ));
        }
        i += 1;
    }
    match mode {
        ScanMode::InName => {
            if name.unicode_len() == 0 {
                proof {
                    assert(finish(scan_state(done@, mode, name@, value@)) == Some(
                        entries_view(done@),
                    ));
                }
                Ok(done)
            } else {
                Err(StoreError::ConfigMalformed)
            }
        },
        _ => Err(StoreError::ConfigMalformed),
    }
}

/// When the first entry of `n` stands at `j`, `upsert` replaces it in place.
pub proof fn lemma_upsert_at(es: Seq<(Seq<char>, bool)>, n: Seq<char>, v: bool, j: int)
    requires
        0 <= j < es.len(),
        es[j].0 == n,
        forall|k: int| 0 <= k < j ==> (#[trigger] es[k]).0 != n,
    ensures
        upsert(es, n, v) == es.update(j, (n, v)),
    decreases j,
{
    if j == 0 {
        assert(seq![(n, v)] + es.skip(1) =~= es.update(0, (n, v)));
    } else {
        assert(es[0].0 != n);
        assert(es.skip(1)[j - 1] == es[j]);
        assert(forall|k: int| 0 <= k < j - 1 ==> (#[trigger] es.skip(1)[k]) == es[k + 1]);
        lemma_upsert_at(es.skip(1), n, v, j - 1);
        assert(seq![es[0]] + es.skip(1).update(j - 1, (n, v)) =~= es.update(j, (n, v)));
    }
}

/// When no entry carries `n`, `upsert` appends a new entry.
pub proof fn lemma_upsert_absent(es: Seq<(Seq<char>, bool)>, n: Seq<char>, v: bool)
    requires
        forall|k: int| 0 <= k < es.len() ==> (#[trigger] es[k]).0 != n,
    ensures
        upsert(es, n, v) == es.push((n, v)),
    decreases es.len(),
{
    if es.len() == 0 {
        assert(seq![(n, v)] =~= es.push((n, v)));
    } else {
        assert(forall|k: int| 0 <= k < es.skip(1).len() ==> (#[trigger] es.skip(1)[k]) == es[k
            + 1]);
        lemma_upsert_absent(es.skip(1), n, v);
        assert(seq![es[0]] + es.skip(1).push((n, v)) =~= es.push((n, v)));
    }
}

} // verus!
