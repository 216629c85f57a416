//! What starting a program decides before anything is loaded: which file to load, following
//! `#!` lines, and with which arguments.

use vstd::prelude::*;
use crate::bytes::{copy_range, push_all};
use crate::errno::{ELOOP, ENOEXEC};

verus! {

/// The most entries of an argument or environment array that are read.
pub const MAX_PTR_LEN_ENTRIES: usize = 32;
/// The longest chain of `#!` lines that is followed.
pub const MAX_SHEBANG_DEPTH: u32 = 4;
/// Where a program interpreter is loaded.
pub const INTERP_LOAD_BASE: u64 = 0xc00_0000;

/// The first position from `i` on whose byte passes `test`, or the length.
pub open spec fn find(s: Seq<u8>, test: spec_fn(u8) -> bool, i: int) -> int
    decreases s.len() - i,
{
    if i >= s.len() {
        s.len() as int
    } else if test(s[i]) {
        i
    } else {
        find(s, test, i + 1)
    }
}

/// One past the last position below `n` whose byte passes `test`, or zero.
pub open spec fn rfind(s: Seq<u8>, test: spec_fn(u8) -> bool, n: int) -> int
    decreases n,
{
    if n <= 0 {
        0
    } else if test(s[n - 1]) {
        n
    } else {
        rfind(s, test, n - 1)
    }
}

/// White space: blank, tab, line feed, form feed or carriage return.
pub open spec fn is_space(b: u8) -> bool {
    b == 32 || b == 9 || b == 10 || b == 12 || b == 13
}

/// The test for white space.
pub open spec fn space() -> spec_fn(u8) -> bool {
    |b: u8| is_space(b)
}

/// The test for anything but white space.
pub open spec fn ink() -> spec_fn(u8) -> bool {
    |b: u8| !is_space(b)
}

/// The test for one byte.
pub open spec fn byte(x: u8) -> spec_fn(u8) -> bool {
    |b: u8| b == x
}

fn space_at(b: u8) -> (r: bool)
    ensures
        r == is_space(b),
{
    b == 32 || b == 9 || b == 10 || b == 12 || b == 13
}

/// The part of a path behind its last slash.
pub open spec fn base_of(path: Seq<u8>) -> Seq<u8> {
    path.skip(rfind(path, byte(47), path.len() as int))
}

/// The part of a path behind its last slash.
pub fn basename(path: &[u8]) -> (r: Vec<u8>)
    ensures
        r@ == base_of(path@),
{
    let mut n: usize = path.len();
    while n > 0 && path[n - 1] != 47
        invariant
            n <= path@.len(),
            rfind(path@, byte(47), path@.len() as int) == rfind(path@, byte(47), n as int),
        decreases n,
    {
        n -= 1;
    }
    let r = copy_range(path, n, path.len());
    assert(r@ =~= base_of(path@));
    r
}

/// Each argument with a zero byte behind it, one after the other.
pub open spec fn cmdline_of(argv: Seq<Seq<u8>>) -> Seq<u8>
    decreases argv.len(),
{
    if argv.len() == 0 {
        Seq::empty()
    } else {
        cmdline_of(argv.drop_last()) + argv.last().push(0)
    }
}

/// Byte strings as sequences.
pub open spec fn strings(v: Seq<Vec<u8>>) -> Seq<Seq<u8>> {
    Seq::new(v.len(), |i: int| v[i]@)
}

/// Each argument with a zero byte behind it, one after the other.
pub fn build_cmdline(argv: &Vec<Vec<u8>>) -> (r: Vec<u8>)
    ensures
        r@ == cmdline_of(strings(argv@)),
{
    let mut out: Vec<u8> = Vec::new();
    let mut i: usize = 0;
    let ghost all = strings(argv@);
    while i < argv.len()
        invariant
            all == strings(argv@),
            i <= argv@.len(),
            out@ == cmdline_of(all.take(i as int)),
        decreases argv@.len() - i,
    {
        push_all(&mut out, argv[i].as_slice());
        out.push(0);
        i += 1;
        assert(all.take(i as int).drop_last() =~= all.take(i - 1));
        assert(out@ =~= cmdline_of(all.take(i as int)));
    }
    assert(all.take(i as int) =~= all);
    out
}

/// `s` without white space at either end.
pub open spec fn trimmed(s: Seq<u8>) -> Seq<u8> {
    let a = find(s, ink(), 0);
    let b = rfind(s, ink(), s.len() as int);
    if a >= b {
        Seq::empty()
    } else {
        s.subrange(a, b)
    }
}

fn find_space(s: &[u8], want: bool) -> (r: usize)
    ensures
        r == find(s@, if want {
            space()
        } else {
            ink()
        }, 0),
        r <= s@.len(),
{
    let ghost test = if want {
        space()
    } else {
        ink()
    };
    let mut i: usize = 0;
    while i < s.len() && space_at(s[i]) != want
        invariant
            i <= s@.len(),
            test == if want {
                space()
            } else {
                ink()
            },
            find(s@, test, 0) == find(s@, test, i as int),
        decreases s@.len() - i,
    {
        i += 1;
    }
    i
}

/// `bytes` without white space at either end.
pub fn trim_ascii_whitespace(bytes: &[u8]) -> (r: Vec<u8>)
    ensures
        r@ == trimmed(bytes@),
{
    let a: usize = find_space(bytes, false);
    let mut b: usize = bytes.len();
    while b > 0 && space_at(bytes[b - 1])
        invariant
            b <= bytes@.len(),
            rfind(bytes@, ink(), bytes@.len() as int) == rfind(bytes@, ink(), b as int),
        decreases b,
    {
        b -= 1;
    }
    if a >= b {
        Vec::new()
    } else {
        copy_range(bytes, a, b)
    }
}

/// The first line of a script without its mark and without white space at either end.
pub open spec fn shebang_line(s: Seq<u8>) -> Seq<u8> {
    trimmed(s.subrange(2, find(s, byte(10), 2)))
}

/// The interpreter that a script names.
pub open spec fn interpreter_of(s: Seq<u8>) -> Seq<u8> {
    let line = shebang_line(s);
    line.take(find(line, space(), 0))
}

/// The one argument that a script hands its interpreter: the rest of the line.
pub open spec fn interpreter_arg(s: Seq<u8>) -> Seq<u8> {
    let line = shebang_line(s);
    trimmed(line.skip(find(line, space(), 0)))
}

/// Reads the interpreter and its one argument, if any, out of a `#!` line.
pub fn parse_shebang_line(bytes: &[u8]) -> (r: Option<(Vec<u8>, Option<Vec<u8>>)>)
    requires
        bytes@.len() >= 2,
        bytes@[0] != 10,
        bytes@[1] != 10,
    ensures
        match r {
            None => interpreter_of(bytes@).len() == 0,
            Some((i, a)) => {
                &&& i@.len() > 0
                &&& i@ == interpreter_of(bytes@)
                &&& match a {
                    None => interpreter_arg(bytes@).len() == 0,
                    Some(x) => x@.len() > 0 && x@ == interpreter_arg(bytes@),
                }
            },
        },
{
    let mut end: usize = 2;
    while end < bytes.len() && bytes[end] != 10
        invariant
            2 <= end <= bytes@.len(),
            find(bytes@, byte(10), 2) == find(bytes@, byte(10), end as int),
        decreases bytes@.len() - end,
    {
        end += 1;
    }
    let raw = copy_range(bytes, 2, end);
    let line = trim_ascii_whitespace(raw.as_slice());
    assert(line@ == shebang_line(bytes@));
    let cut: usize = find_space(line.as_slice(), true);
    let interpreter = copy_range(line.as_slice(), 0, cut);
    assert(interpreter@ =~= interpreter_of(bytes@));
    if interpreter.len() == 0 {
        return None;
    }
    let tail = copy_range(line.as_slice(), cut, line.len());
    let rest = trim_ascii_whitespace(tail.as_slice());
    assert(line@.skip(cut as int) =~= tail@);
    let arg = if rest.len() == 0 {
        None
    } else {
        Some(rest)
    };
    Some((interpreter, arg))
}

/// The entries of an argument array up to its end mark, at most a fixed number.
pub open spec fn entries_of(raw: Seq<(u64, u64)>) -> Seq<(u64, u64)>
    decreases raw.len(),
{
    if raw.len() == 0 {
        Seq::empty()
    } else {
        let head = entries_of(raw.drop_last());
        if head.len() == raw.len() - 1 && raw.len() <= MAX_PTR_LEN_ENTRIES && raw.last().0 != 0 {
            head.push(raw.last())
        } else {
            head
        }
    }
}

/// The entries, as address and length, of an argument array up to its end mark, at most a fixed
/// number. `raw` is the array as far as it was read.
pub fn read_ptr_len_array(raw: &Vec<(u64, u64)>) -> (r: Vec<(u64, u64)>)
    ensures
        r@ == entries_of(raw@),
{
    let mut out: Vec<(u64, u64)> = Vec::new();
    let mut i: usize = 0;
    while i < raw.len()
        invariant
            i <= raw@.len(),
            out@ == entries_of(raw@.take(i as int)),
            out@.len() <= i,
        decreases raw@.len() - i,
    {
        assert(raw@.take(i + 1).drop_last() =~= raw@.take(i as int));
        if out.len() == i && i < MAX_PTR_LEN_ENTRIES && raw[i].0 != 0 {
            out.push(raw[i]);
        }
        i += 1;
    }
    assert(raw@.take(i as int) =~= raw@);
    out
}

/// Where the search for the file to load stands.
pub struct ExecPath {
    /// The path that the caller gave.
    pub path: Vec<u8>,
    /// The path to read next.
    pub effective: Vec<u8>,
    /// Once a `#!` line was followed: the interpreter, its argument and the script.
    pub prefix: Option<Vec<Vec<u8>>>,
    /// How many `#!` lines were followed.
    pub depth: u32,
}

/// The search as contracts see it.
#[verifier::ext_equal]
pub struct ExecPathView {
    pub path: Seq<u8>,
    pub effective: Seq<u8>,
    pub prefix: Option<Seq<Seq<u8>>>,
    pub depth: u32,
}

impl View for ExecPath {
    type V = ExecPathView;

    open spec fn view(&self) -> ExecPathView {
        ExecPathView {
            path: self.path@,
            effective: self.effective@,
            prefix: match self.prefix {
                Some(p) => Some(strings(p@)),
                None => None,
            },
            depth: self.depth,
        }
    }
}

/// Begins with the path that the caller gave.
pub fn exec_begin(path: &[u8]) -> (r: ExecPath)
    ensures
        r@ == (ExecPathView { path: path@, effective: path@, prefix: None, depth: 0 }),
{
    let a = copy_range(path, 0, path.len());
    let b = copy_range(path, 0, path.len());
    assert(a@ =~= path@ && b@ =~= path@);
    ExecPath { path: a, effective: b, prefix: None, depth: 0 }
}

/// What comes of one read while a program file is taken in.
#[derive(Clone, Copy, PartialEq, Eq, Structural, Debug)]
pub enum FileStep {
    /// Read on.
    More,
    /// The file is complete: close it.
    Complete,
    /// Close the file and fail.
    Failed(u64),
}

/// Adds what one read of a program file gave.
pub fn read_file_step(contents: &mut Vec<u8>, chunk: Result<&[u8], u64>) -> (r: FileStep)
    ensures
        match chunk {
            Ok(b) => {
                &&& final(contents)@ == old(contents)@ + b@
                &&& r == (if b@.len() == 0 {
                    FileStep::Complete
                } else {
                    FileStep::More
                })
            },
            Err(e) => final(contents)@ == old(contents)@ && r == FileStep::Failed(e),
        },
{
    match chunk {
        Ok(b) => {
            push_all(contents, b);
            if b.len() == 0 {
                FileStep::Complete
            } else {
                FileStep::More
            }
        },
        Err(e) => FileStep::Failed(e),
    }
}

/// Whether a file starts with `#!`.
pub open spec fn is_script(s: Seq<u8>) -> bool {
    s.len() >= 2 && s[0] == 35 && s[1] == 33
}

/// The arguments that stand for a script.
pub open spec fn script_prefix(script: Seq<u8>, path: Seq<u8>) -> Seq<Seq<u8>> {
    let arg = interpreter_arg(script);
    if arg.len() == 0 {
        seq![interpreter_of(script), path]
    } else {
        seq![interpreter_of(script), arg, path]
    }
}

/// The search after a script was read.
pub open spec fn followed(e: ExecPathView, script: Seq<u8>) -> ExecPathView {
    ExecPathView {
        path: e.path,
        effective: interpreter_of(script),
        prefix: Some(script_prefix(script, e.effective)),
        depth: (e.depth + 1) as u32,
    }
}

/// Looks at the contents of the file at `effective`. `Ok(true)`: it is what to load. `Ok(false)`:
/// it is a script, and the file to read next is now `effective`.
pub fn exec_step(e: &mut ExecPath, contents: &[u8]) -> (r: Result<bool, u64>)
    requires
        old(e)@.depth <= MAX_SHEBANG_DEPTH,
    ensures
        final(e)@.depth <= MAX_SHEBANG_DEPTH,
        if !is_script(contents@) {
            r == Ok::<bool, u64>(true) && final(e)@ == old(e)@
        } else if old(e)@.depth == MAX_SHEBANG_DEPTH {
            r == Err::<bool, u64>(ELOOP) && final(e)@ == old(e)@
        } else if interpreter_of(contents@).len() == 0 {
            r == Err::<bool, u64>(ENOEXEC) && final(e)@ == old(e)@
        } else {
            r == Ok::<bool, u64>(false) && final(e)@ == followed(old(e)@, contents@)
        },
{
    if contents.len() < 2 || contents[0] != 35 || contents[1] != 33 {
        return Ok(true);
    }
    if e.depth >= MAX_SHEBANG_DEPTH {
        return Err(ELOOP);
    }
    let ghost before = e@;
    match parse_shebang_line(contents) {
        None => Err(ENOEXEC),
        Some((interpreter, arg)) => {
            let mut prefix: Vec<Vec<u8>> = Vec::new();
            let first = copy_range(interpreter.as_slice(), 0, interpreter.len());
            assert(first@ =~= interpreter@);
            prefix.push(first);
            if let Some(a) = arg {
                prefix.push(a);
            }
            let script = copy_range(e.effective.as_slice(), 0, e.effective.len());
            assert(script@ =~= before.effective);
            prefix.push(script);
            assert(strings(prefix@) =~= script_prefix(contents@, before.effective));
            e.prefix = Some(prefix);
            e.effective = interpreter;
            e.depth = e.depth + 1;
            assert(e@ =~= followed(before, contents@));
            Ok(false)
        },
    }
}

/// The arguments that the program starts with: those given; the path alone where none are given;
/// and for a script its prefix in place of the first one.
pub open spec fn final_argv(e: ExecPathView, given: Seq<Seq<u8>>) -> Seq<Seq<u8>> {
    match e.prefix {
        Some(p) => if given.len() == 0 {
            p
        } else {
            p + given.skip(1)
        },
        None => if given.len() == 0 {
            seq![e.path]
        } else {
            given
        },
    }
}

fn copy_bytes(v: &Vec<u8>) -> (r: Vec<u8>)
    ensures
        r@ == v@,
{
    let r = copy_range(v.as_slice(), 0, v.len());
    assert(r@ =~= v@);
    r
}

fn append_strings(out: &mut Vec<Vec<u8>>, from: &Vec<Vec<u8>>, start: usize)
    requires
        start <= from@.len(),
    ensures
        strings(final(out)@) == strings(old(out)@) + strings(from@).skip(start as int),
{
    let ghost before = strings(out@);
    let ghost all = strings(from@);
    let mut i: usize = start;
    while i < from.len()
        invariant
            start <= i <= from@.len(),
            all == strings(from@),
            strings(out@) == before + all.subrange(start as int, i as int),
        decreases from@.len() - i,
    {
        let ghost was = out@;
        out.push(copy_bytes(&from[i]));
        i += 1;
        assert(strings(out@) =~= strings(was).push(all[i - 1]));
        assert(all.subrange(start as int, i as int) =~= all.subrange(start as int, i - 1).push(
            all[i - 1],
        ));
    }
    assert(all.subrange(start as int, i as int) =~= all.skip(start as int));
}

/// The arguments that the program starts with.
pub fn exec_argv(e: &ExecPath, given: &Vec<Vec<u8>>) -> (r: Vec<Vec<u8>>)
    ensures
        strings(r@) == final_argv(e@, strings(given@)),
{
    let mut out: Vec<Vec<u8>> = Vec::new();
    assert(strings(out@) =~= Seq::empty());
    match &e.prefix {
        Some(p) => {
            append_strings(&mut out, p, 0);
            assert(strings(out@) =~= strings(p@));
            if given.len() > 0 {
                append_strings(&mut out, given, 1);
            }
        },
        None => {
            if given.len() == 0 {
                out.push(copy_bytes(&e.path));
                assert(strings(out@) =~= seq![e.path@]);
            } else {
                append_strings(&mut out, given, 0);
                assert(strings(out@) =~= strings(given@));
            }
        },
    }
    out
}

/// Where the program starts, and where its interpreter was loaded, if it has one.
pub fn exec_entry(entry: u64, interpreter_entry: Option<u64>) -> (r: (u64, Option<u64>))
    ensures
        r == match interpreter_entry {
            Some(i) => (i, Some(INTERP_LOAD_BASE)),
            None => (entry, None::<u64>),
        },
{
    match interpreter_entry {
        Some(i) => (i, Some(INTERP_LOAD_BASE)),
        None => (entry, None),
    }
}

/// Trimming twice is trimming once, and what is left of a trim starts and ends in ink.
pub proof fn law_trim(s: Seq<u8>)
    ensures
        trimmed(s).len() > 0 ==> !is_space(trimmed(s)[0]) && !is_space(trimmed(s).last()),
        trimmed(trimmed(s)) == trimmed(s),
{
    lemma_find_hit(s, ink(), 0);
    lemma_rfind_hit(s, ink(), s.len() as int);
    let t = trimmed(s);
    if t.len() > 0 {
        assert(find(t, ink(), 0) == 0);
        assert(rfind(t, ink(), t.len() as int) == t.len());
        assert(trimmed(t) =~= t);
    } else {
        assert(trimmed(t) =~= t);
    }
}

/// `find` finds a byte that passes.
proof fn lemma_find_hit(s: Seq<u8>, test: spec_fn(u8) -> bool, i: int)
    requires
        0 <= i <= s.len(),
    ensures
        i <= find(s, test, i) <= s.len(),
        find(s, test, i) < s.len() ==> test(s[find(s, test, i)]),
    decreases s.len() - i,
{
    if i < s.len() && !test(s[i]) {
        lemma_find_hit(s, test, i + 1);
    }
}

/// `rfind` finds a byte that passes.
proof fn lemma_rfind_hit(s: Seq<u8>, test: spec_fn(u8) -> bool, n: int)
    requires
        0 <= n <= s.len(),
    ensures
        0 <= rfind(s, test, n) <= n,
        rfind(s, test, n) > 0 ==> test(s[rfind(s, test, n) - 1]),
    decreases n,
{
    if n > 0 && !test(s[n - 1]) {
        lemma_rfind_hit(s, test, n - 1);
    }
}

} // verus!
