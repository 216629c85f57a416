//! What becomes of a path, a script and its arguments when a program is run.

use vstd::prelude::*;

use crate::exec::{
    base_of, byte, cmdline_of, entries_of, final_argv, find, followed, ink, interpreter_arg,
    interpreter_of, is_script, rfind, shebang_line, space, trimmed, ExecPathView,
    MAX_PTR_LEN_ENTRIES, MAX_SHEBANG_DEPTH,
};

verus! {

/// White space within a line.
pub open spec fn blank(b: u8) -> bool {
    b == 32 || b == 9 || b == 12 || b == 13
}

/// Nothing but white space within a line.
pub open spec fn blanks(s: Seq<u8>) -> bool {
    forall|i: int| 0 <= i < s.len() ==> blank(#[trigger] s[i])
}

/// No white space and no end of a line.
pub open spec fn solid(s: Seq<u8>) -> bool {
    forall|i: int| 0 <= i < s.len() ==> !blank(#[trigger] s[i]) && s[i] != 10
}

/// No end of a line, and no white space at either end.
pub open spec fn phrase(s: Seq<u8>) -> bool {
    &&& forall|i: int| 0 <= i < s.len() ==> #[trigger] s[i] != 10
    &&& s.len() > 0 ==> !blank(s[0]) && !blank(s[s.len() - 1])
}

proof fn lemma_find(s: Seq<u8>, test: spec_fn(u8) -> bool, i: int, k: int)
    requires
        0 <= i <= k <= s.len(),
        forall|j: int| i <= j < k ==> !test(#[trigger] s[j]),
        k < s.len() ==> test(s[k]),
    ensures
        find(s, test, i) == k,
    decreases k - i,
{
    if i < k {
        lemma_find(s, test, i + 1, k);
    }
}

proof fn lemma_rfind(s: Seq<u8>, test: spec_fn(u8) -> bool, n: int, k: int)
    requires
        0 <= k <= n <= s.len(),
        forall|j: int| k <= j < n ==> !test(#[trigger] s[j]),
        k > 0 ==> test(s[k - 1]),
    ensures
        rfind(s, test, n) == k,
    decreases n - k,
{
    if k < n {
        lemma_rfind(s, test, n - 1, k);
    }
}

/// Trimming takes away the white space at both ends and nothing else.
pub proof fn law_trimmed(before: Seq<u8>, core: Seq<u8>, behind: Seq<u8>)
    requires
        blanks(before),
        phrase(core),
        blanks(behind),
    ensures
        trimmed(before + core + behind) == core,
{
    let s = before + core + behind;
    let a = before.len() as int;
    let b = a + core.len();
    assert forall|j: int| 0 <= j < a implies !ink()(#[trigger] s[j]) by {
        assert(s[j] == before[j]);
    }
    assert forall|j: int| b <= j < s.len() implies !ink()(#[trigger] s[j]) by {
        assert(s[j] == behind[j - b]);
    }
    if core.len() > 0 {
        assert(s[a] == core[0] && s[b - 1] == core[core.len() - 1]);
        lemma_find(s, ink(), 0, a);
        lemma_rfind(s, ink(), s.len() as int, b);
        assert(s.subrange(a, b) =~= core);
    } else {
        lemma_find(s, ink(), 0, s.len() as int);
        lemma_rfind(s, ink(), s.len() as int, 0);
        assert(core =~= Seq::<u8>::empty());
    }
}

/// What a `#!` line says: behind the mark and any white space the interpreter, up to the next white
/// space; then, as one argument, the rest of the line without white space at either end. What
/// follows the line does not matter.
pub proof fn law_script_line(
    w0: Seq<u8>,
    name: Seq<u8>,
    w1: Seq<u8>,
    arg: Seq<u8>,
    w2: Seq<u8>,
    rest: Seq<u8>,
)
    requires
        blanks(w0),
        solid(name),
        name.len() > 0,
        blanks(w1),
        phrase(arg),
        arg.len() > 0 ==> w1.len() > 0,
        blanks(w2),
        rest.len() > 0 ==> rest[0] == 10,
    ensures
        ({
            let script = seq![35u8, 33u8] + w0 + name + w1 + arg + w2 + rest;
            &&& is_script(script)
            &&& interpreter_of(script) == name
            &&& interpreter_arg(script) == arg
        }),
{
    let script = seq![35u8, 33u8] + w0 + name + w1 + arg + w2 + rest;
    let raw = w0 + name + w1 + arg + w2;
    let k = 2 + raw.len();
    assert(script =~= seq![35u8, 33u8] + raw + rest);
    assert forall|j: int| 2 <= j < k implies !byte(10)(#[trigger] script[j]) by {
        let i = j - 2;
        assert(script[j] == raw[i]);
        if i < w0.len() {
            assert(raw[i] == w0[i]);
        } else if i < w0.len() + name.len() {
            assert(raw[i] == name[i - w0.len()]);
        } else if i < w0.len() + name.len() + w1.len() {
            assert(raw[i] == w1[i - w0.len() - name.len()]);
        } else if i < w0.len() + name.len() + w1.len() + arg.len() {
            assert(raw[i] == arg[i - w0.len() - name.len() - w1.len()]);
        } else {
            assert(raw[i] == w2[i - w0.len() - name.len() - w1.len() - arg.len()]);
        }
    }
    if k < script.len() {
        assert(script[k as int] == rest[0]);
    }
    lemma_find(script, byte(10), 2, k as int);
    assert(script.subrange(2, k as int) =~= raw);
    if arg.len() > 0 {
        let line = name + w1 + arg;
        assert(raw =~= w0 + line + w2);
        assert(phrase(line)) by {
            assert forall|i: int| 0 <= i < line.len() implies #[trigger] line[i] != 10 by {
                if i < name.len() {
                    assert(line[i] == name[i]);
                } else if i < name.len() + w1.len() {
                    assert(line[i] == w1[i - name.len()]);
                } else {
                    assert(line[i] == arg[i - name.len() - w1.len()]);
                }
            }
            assert(line[0] == name[0]);
            assert(line[line.len() - 1] == arg[arg.len() - 1]);
        }
        law_trimmed(w0, line, w2);
        assert(shebang_line(script) == line);
        assert forall|j: int| 0 <= j < name.len() implies !space()(#[trigger] line[j]) by {
            assert(line[j] == name[j]);
        }
        assert(line[name.len() as int] == w1[0]);
        lemma_find(line, space(), 0, name.len() as int);
        assert(line.take(name.len() as int) =~= name);
        assert(line.skip(name.len() as int) =~= w1 + arg + Seq::<u8>::empty());
        law_trimmed(w1, arg, Seq::empty());
    } else {
        assert(raw =~= w0 + name + (w1 + w2));
        assert(blanks(w1 + w2));
        assert(phrase(name)) by {
            assert(!blank(name[0]) && !blank(name[name.len() - 1]));
        }
        law_trimmed(w0, name, w1 + w2);
        assert(shebang_line(script) == name);
        lemma_find(name, space(), 0, name.len() as int);
        assert(name.take(name.len() as int) =~= name);
        let none = Seq::<u8>::empty();
        assert(name.skip(name.len() as int) =~= none + none + none);
        law_trimmed(none, none, none);
        assert(arg =~= none);
    }
}

/// What is a script: a file whose first two bytes are `#!`.
pub proof fn law_script_mark(s: Seq<u8>)
    ensures
        is_script(s) <==> s.len() >= 2 && s.take(2) == seq![0x23u8, 0x21u8],
        MAX_SHEBANG_DEPTH == 4,
{
    if s.len() >= 2 {
        if is_script(s) {
            assert(s.take(2) =~= seq![0x23u8, 0x21u8]);
        }
        assert(s.take(2)[0] == s[0] && s.take(2)[1] == s[1]);
    }
}

/// After a script was followed the interpreter is what is read next, one line more is counted, and
/// the interpreter starts with its own path, its argument where the script gives one, the path of
/// the script that was read, and what the caller gave behind the first argument.
pub proof fn law_script_argv(e: ExecPathView, script: Seq<u8>, given: Seq<Seq<u8>>)
    requires
        e.depth < u32::MAX,
    ensures
        ({
            let t = followed(e, script);
            let argv = final_argv(t, given);
            let i = interpreter_of(script);
            let a = interpreter_arg(script);
            let tail = if given.len() > 0 {
                given.subrange(1, given.len() as int)
            } else {
                Seq::empty()
            };
            &&& t.effective == i
            &&& t.path == e.path
            &&& t.depth == e.depth + 1
            &&& a.len() == 0 ==> argv == seq![i] + seq![e.effective] + tail
            &&& a.len() > 0 ==> argv == seq![i] + seq![a] + seq![e.effective] + tail
        }),
{
    let t = followed(e, script);
    let argv = final_argv(t, given);
    let i = interpreter_of(script);
    let a = interpreter_arg(script);
    let tail = if given.len() > 0 {
        given.subrange(1, given.len() as int)
    } else {
        Seq::empty()
    };
    if a.len() == 0 {
        assert(argv =~= seq![i] + seq![e.effective] + tail);
    } else {
        assert(argv =~= seq![i] + seq![a] + seq![e.effective] + tail);
    }
}

/// A program that is no script starts with what the caller gave, and with its path where that was
/// nothing.
pub proof fn law_plain_argv(e: ExecPathView, given: Seq<Seq<u8>>)
    requires
        e.prefix.is_none(),
    ensures
        given.len() > 0 ==> final_argv(e, given) == given,
        given.len() == 0 ==> final_argv(e, given).len() == 1 && final_argv(e, given)[0] == e.path,
{
}

/// The name of a program: what stands behind the last slash of its path, or all of it.
pub proof fn law_base(dir: Seq<u8>, name: Seq<u8>)
    requires
        forall|i: int| 0 <= i < name.len() ==> #[trigger] name[i] != 47,
    ensures
        base_of(dir.push(47) + name) == name,
        base_of(name) == name,
{
    let s = dir.push(47) + name;
    assert forall|j: int| dir.len() + 1 <= j < s.len() implies !byte(47)(#[trigger] s[j]) by {
        assert(s[j] == name[j - dir.len() - 1]);
    }
    assert(s[dir.len() as int] == 47);
    lemma_rfind(s, byte(47), s.len() as int, (dir.len() + 1) as int);
    assert(s.skip((dir.len() + 1) as int) =~= name);
    lemma_rfind(name, byte(47), name.len() as int, 0);
    assert(name.skip(0) =~= name);
}

/// The command line: every argument in turn, each with a zero byte behind it.
pub proof fn law_cmdline(before: Seq<Seq<u8>>, arg: Seq<u8>)
    ensures
        cmdline_of(Seq::empty()).len() == 0,
        cmdline_of(before.push(arg)) == cmdline_of(before) + arg + seq![0u8],
{
    assert(before.push(arg).drop_last() =~= before);
    assert(cmdline_of(before) + arg.push(0) =~= cmdline_of(before) + arg + seq![0u8]);
}

/// Of an argument array that is read up to its end mark or beyond, exactly the entries before the
/// mark are taken, at most 32.
pub proof fn law_entries(raw: Seq<(u64, u64)>, n: int)
    requires
        0 <= n <= raw.len(),
        n <= 32,
        forall|i: int| 0 <= i < n ==> (#[trigger] raw[i]).0 != 0,
        n < raw.len() ==> n == 32 || raw[n].0 == 0,
    ensures
        entries_of(raw) == raw.take(n),
        MAX_PTR_LEN_ENTRIES == 32,
    decreases raw.len(),
{
    if raw.len() == 0 {
        assert(raw.take(0) =~= raw);
    } else {
        let before = raw.drop_last();
        if n == raw.len() {
            assert forall|i: int| 0 <= i < n - 1 implies (#[trigger] before[i]).0 != 0 by {
                assert(before[i] == raw[i]);
            }
            law_entries(before, n - 1);
            assert(raw[n - 1].0 != 0);
            assert(before.take(n - 1) =~= before);
            assert(raw.take(n) =~= before.push(raw.last()));
        } else {
            assert forall|i: int| 0 <= i < n implies (#[trigger] before[i]).0 != 0 by {
                assert(before[i] == raw[i]);
            }
            if n < before.len() {
                assert(before[n] == raw[n]);
            }
            law_entries(before, n);
            assert(before.take(n) =~= raw.take(n));
        }
    }
}

} // verus!
