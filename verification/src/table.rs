//! The mount-table editor: the logic that rewrites the persistent
//! mount-table file. A table is a sequence of text lines; a managed line
//! holds whitespace-separated fields (source token, target path, filesystem
//! type, options, dump flag, pass number). Editing keys on the target-path
//! field — the second field of a line — and passes every other line through
//! byte for byte, in its original order. Lines whose first non-blank byte is
//! `#` are comments and are never treated as entries.
//!
//! Reading and writing the file itself is the caller's concern: the editor
//! maps the old file content to the new one.

use vstd::prelude::*;
use vstd::slice::slice_to_vec;

use crate::fs_type::{spec_system_name_bytes, MountType};

verus! {

/// The space and horizontal-tab bytes separate the fields of a line.
pub open spec fn is_ws(b: u8) -> bool {
    b == 32 || b == 9
}

/// The first position at or after `i` that does not hold a field
/// separator, or the end of the line.
pub open spec fn skip_ws(line: Seq<u8>, i: int) -> int
    decreases line.len() - i,
{
    if 0 <= i < line.len() && is_ws(line[i]) {
        skip_ws(line, i + 1)
    } else {
        i
    }
}

/// The first position at or after `i` that holds a field separator, or the
/// end of the line.
pub open spec fn skip_token(line: Seq<u8>, i: int) -> int
    decreases line.len() - i,
{
    if 0 <= i < line.len() && !is_ws(line[i]) {
        skip_token(line, i + 1)
    } else {
        i
    }
}

/// The target-path field of a line: its second whitespace-separated field,
/// or nothing when the line has fewer than two fields.
pub open spec fn entry_target(line: Seq<u8>) -> Option<Seq<u8>> {
    let a = skip_ws(line, 0);
    let b = skip_token(line, a);
    let c = skip_ws(line, b);
    let d = skip_token(line, c);
    if c < line.len() {
        Some(line.subrange(c, d))
    } else {
        None
    }
}

/// A comment line: its first non-blank byte is `#`.
pub open spec fn is_comment(line: Seq<u8>) -> bool {
    skip_ws(line, 0) < line.len() && line[skip_ws(line, 0)] == 35
}

/// Whether `line` is the managed entry for `target`: not a comment, and its
/// target-path field is exactly `target`.
pub open spec fn is_entry_for(line: Seq<u8>, target: Seq<u8>) -> bool {
    !is_comment(line) && entry_target(line) == Some(target)
}

proof fn lemma_skip_ws_bounds(line: Seq<u8>, i: int)
    requires
        0 <= i <= line.len(),
    ensures
        i <= skip_ws(line, i) <= line.len(),
        skip_ws(line, i) < line.len() ==> !is_ws(line[skip_ws(line, i)]),
    decreases line.len() - i,
{
    if i < line.len() && is_ws(line[i]) {
        lemma_skip_ws_bounds(line, i + 1);
    }
}

proof fn lemma_skip_token_bounds(line: Seq<u8>, i: int)
    requires
        0 <= i <= line.len(),
    ensures
        i <= skip_token(line, i) <= line.len(),
        skip_token(line, i) < line.len() ==> is_ws(line[skip_token(line, i)]),
    decreases line.len() - i,
{
    if i < line.len() && !is_ws(line[i]) {
        lemma_skip_token_bounds(line, i + 1);
    }
}

/// Whether the bytes of `a` and `b` are equal.
fn bytes_eq(a: &[u8], b: &[u8]) -> (r: bool)
    ensures
        r == (a@ == b@),
{
    if a.len() != b.len() {
        assert(a@ != b@);
        return false;
    }
    let n = a.len();
    let mut i: usize = 0;
    while i < n
        invariant
            n == a@.len(),
            n == b@.len(),
            i <= n,
            forall|j: int| 0 <= j < i ==> a@[j] == b@[j],
        decreases n - i,
    {
        if a[i] != b[i] {
            assert(a@ != b@);
            return false;
        }
        i += 1;
    }
    assert(a@ =~= b@);
    true
}

/// The first position at or after `i` in `line` that does not hold a field
/// separator.
fn scan_past_ws(line: &[u8], i: usize) -> (r: usize)
    requires
        i <= line@.len(),
    ensures
        r == skip_ws(line@, i as int),
        i <= r <= line@.len(),
{
    proof {
        lemma_skip_ws_bounds(line@, i as int);
    }
    let mut j = i;
    while j < line.len() && (line[j] == 32 || line[j] == 9)
        invariant
            i <= j <= line@.len(),
            skip_ws(line@, i as int) == skip_ws(line@, j as int),
        decreases line@.len() - j,
    {
        j += 1;
    }
    j
}

/// The first position at or after `i` in `line` that holds a field
/// separator, or the end of the line.
fn scan_past_token(line: &[u8], i: usize) -> (r: usize)
    requires
        i <= line@.len(),
    ensures
        r == skip_token(line@, i as int),
        i <= r <= line@.len(),
{
    proof {
        lemma_skip_token_bounds(line@, i as int);
    }
    let mut j = i;
    while j < line.len() && !(line[j] == 32 || line[j] == 9)
        invariant
            i <= j <= line@.len(),
            skip_token(line@, i as int) == skip_token(line@, j as int),
        decreases line@.len() - j,
    {
        j += 1;
    }
    j
}

/// The number of bytes from `i` to the first newline byte at or after `i`,
/// or to the end of `c` when no newline follows.
pub open spec fn nl_off(c: Seq<u8>, i: int) -> nat
    decreases c.len() - i,
{
    if 0 <= i < c.len() && c[i] != 10 {
        1 + nl_off(c, i + 1)
    } else {
        0
    }
}

/// The lines of a file content: the maximal newline-free runs between the
/// newline bytes. A content with `n` newline bytes has `n + 1` lines; a
/// content that ends in a newline thus ends with an empty line, and an
/// empty content is the single empty line.
pub open spec fn split_lines_spec(c: Seq<u8>) -> Seq<Seq<u8>>
    decreases c.len(),
{
    let k = nl_off(c, 0) as int;
    if k < c.len() {
        seq![c.subrange(0, k)] + split_lines_spec(c.subrange(k + 1, c.len() as int))
    } else {
        seq![c]
    }
}

/// The file content that holds the given lines: the lines with a newline
/// byte between each neighbouring pair.
pub open spec fn join_lines_spec(lines: Seq<Seq<u8>>) -> Seq<u8>
    decreases lines.len(),
{
    if lines.len() == 0 {
        seq![]
    } else if lines.len() == 1 {
        lines[0]
    } else {
        lines[0] + seq![10u8] + join_lines_spec(lines.drop_first())
    }
}

proof fn lemma_nl_off_bounds(c: Seq<u8>, i: int)
    requires
        0 <= i <= c.len(),
    ensures
        i + nl_off(c, i) <= c.len(),
        forall|j: int| i <= j < i + nl_off(c, i) ==> c[j] != 10,
        i + nl_off(c, i) < c.len() ==> c[i + nl_off(c, i)] == 10,
    decreases c.len() - i,
{
    if i < c.len() && c[i] != 10 {
        lemma_nl_off_bounds(c, i + 1);
    }
}

proof fn lemma_nl_off_exact(c: Seq<u8>, i: int, m: int)
    requires
        0 <= i <= m <= c.len(),
        forall|j: int| i <= j < m ==> c[j] != 10,
        m < c.len() ==> c[m] == 10,
    ensures
        i + nl_off(c, i) == m,
    decreases m - i,
{
    if i < m {
        lemma_nl_off_exact(c, i + 1, m);
    }
}

/// A split never yields an empty sequence of lines, and none of the lines
/// it yields holds a newline byte.
proof fn lemma_split_shape(c: Seq<u8>)
    ensures
        split_lines_spec(c).len() > 0,
        forall|p: int, j: int|
            0 <= p < split_lines_spec(c).len() && 0 <= j < split_lines_spec(c)[p].len()
                ==> split_lines_spec(c)[p][j] != 10,
    decreases c.len(),
{
    lemma_nl_off_bounds(c, 0);
    let k = nl_off(c, 0) as int;
    if k < c.len() {
        lemma_split_shape(c.subrange(k + 1, c.len() as int));
    }
}

/// Joining the lines of a content restores the content.
pub proof fn lemma_join_of_split(c: Seq<u8>)
    ensures
        join_lines_spec(split_lines_spec(c)) == c,
    decreases c.len(),
{
    lemma_nl_off_bounds(c, 0);
    let k = nl_off(c, 0) as int;
    if k < c.len() {
        let rest = c.subrange(k + 1, c.len() as int);
        lemma_join_of_split(rest);
        lemma_split_shape(rest);
        let s = split_lines_spec(c);
        assert(s == seq![c.subrange(0, k)] + split_lines_spec(rest));
        assert(s.len() >= 2);
        assert(s[0] == c.subrange(0, k));
        assert(s.drop_first() =~~= split_lines_spec(rest));
        assert(join_lines_spec(s) == s[0] + seq![10u8] + join_lines_spec(s.drop_first()));
        assert(join_lines_spec(s) =~= c);
    } else {
        assert(c.subrange(0, c.len() as int) =~= c);
    }
}

/// Splitting the content that joins newline-free lines restores the lines.
pub proof fn lemma_split_of_join(lines: Seq<Seq<u8>>)
    requires
        lines.len() > 0,
        forall|p: int, j: int|
            0 <= p < lines.len() && 0 <= j < lines[p].len() ==> lines[p][j] != 10,
    ensures
        split_lines_spec(join_lines_spec(lines)) =~~= lines,
    decreases lines.len(),
{
    let c = join_lines_spec(lines);
    if lines.len() == 1 {
        lemma_nl_off_exact(c, 0, c.len() as int);
        assert(seq![c] =~~= lines);
    } else {
        let rest = lines.drop_first();
        assert(c =~= lines[0] + seq![10u8] + join_lines_spec(rest));
        lemma_nl_off_exact(c, 0, lines[0].len() as int);
        let k = nl_off(c, 0) as int;
        assert(c.subrange(0, k) =~= lines[0]);
        assert(c.subrange(k + 1, c.len() as int) =~= join_lines_spec(rest));
        lemma_split_of_join(rest);
    }
}

/// Joining one more line appends a newline and that line's bytes.
proof fn lemma_join_push(lines: Seq<Seq<u8>>, l: Seq<u8>)
    requires
        lines.len() > 0,
    ensures
        join_lines_spec(lines.push(l)) == join_lines_spec(lines) + seq![10u8] + l,
    decreases lines.len(),
{
    let p = lines.push(l);
    if lines.len() == 1 {
        assert(p.drop_first() =~~= seq![l]);
        assert(join_lines_spec(p.drop_first()) == l);
        assert(p[0] == lines[0]);
        assert(join_lines_spec(p) == p[0] + seq![10u8] + join_lines_spec(p.drop_first()));
        assert(join_lines_spec(lines) == lines[0]);
    } else {
        lemma_join_push(lines.drop_first(), l);
        assert(p.drop_first() =~~= lines.drop_first().push(l));
        assert(join_lines_spec(p) == p[0] + seq![10u8] + join_lines_spec(p.drop_first()));
        assert(join_lines_spec(p.drop_first()) == join_lines_spec(lines.drop_first())
            + seq![10u8] + l);
        assert(join_lines_spec(lines) == lines[0] + seq![10u8] + join_lines_spec(
            lines.drop_first(),
        ));
        assert(join_lines_spec(p) =~= join_lines_spec(lines) + seq![10u8] + l);
    }
}

/// Appends the bytes of `src` to `dst`.
fn append_bytes(dst: &mut Vec<u8>, src: &[u8])
    ensures
        final(dst)@ == old(dst)@ + src@,
{
    let n = src.len();
    let mut i: usize = 0;
    while i < n
        invariant
            n == src@.len(),
            i <= n,
            dst@ == old(dst)@ + src@.subrange(0, i as int),
        decreases n - i,
    {
        dst.push(src[i]);
        assert(dst@ =~= old(dst)@ + src@.subrange(0, i + 1 as int));
        i += 1;
    }
    assert(dst@ =~= old(dst)@ + src@);
}

/// The lines of the content `c`, as `split_lines_spec` describes them.
pub fn split_lines(c: &[u8]) -> (out: Vec<Vec<u8>>)
    ensures
        out.deep_view() == split_lines_spec(c@),
{
    let n = c.len();
    let mut done: Vec<Vec<u8>> = Vec::new();
    let mut cur: Vec<u8> = Vec::new();
    let mut start: usize = 0;
    let mut i: usize = 0;
    proof {
        assert(c@.subrange(0, n as int) =~= c@);
        assert(done.deep_view() =~~= Seq::<Seq<u8>>::empty());
        assert(cur@ =~= c@.subrange(0, 0));
        assert(done.deep_view() + split_lines_spec(c@.subrange(0, n as int)) =~~= split_lines_spec(
            c@,
        ));
    }
    while i < n
        invariant
            n == c@.len(),
            start <= i <= n,
            cur@ == c@.subrange(start as int, i as int),
            forall|j: int| start <= j < i ==> c@[j] != 10,
            split_lines_spec(c@) =~~= done.deep_view() + split_lines_spec(
                c@.subrange(start as int, n as int),
            ),
        decreases n - i,
    {
        if c[i] == 10 {
            proof {
                let seg = c@.subrange(start as int, n as int);
                lemma_nl_off_exact(seg, 0, i - start);
                assert(seg.subrange(0, i - start) =~= c@.subrange(start as int, i as int));
                assert(seg.subrange(i - start + 1, seg.len() as int) =~= c@.subrange(
                    i + 1,
                    n as int,
                ));
            }
            done.push(cur);
            cur = Vec::new();
            start = i + 1;
            assert(cur@ =~= c@.subrange(start as int, start as int));
        } else {
            cur.push(c[i]);
            assert(cur@ =~= c@.subrange(start as int, i + 1 as int));
        }
        i += 1;
    }
    proof {
        let seg = c@.subrange(start as int, n as int);
        lemma_nl_off_exact(seg, 0, n - start);
        assert(split_lines_spec(seg) =~~= seq![cur@]);
    }
    done.push(cur);
    assert(done.deep_view() =~~= split_lines_spec(c@));
    done
}

/// The content that holds the given lines, as `join_lines_spec` describes
/// it.
pub fn join_lines(lines: &Vec<Vec<u8>>) -> (out: Vec<u8>)
    ensures
        out@ == join_lines_spec(lines.deep_view()),
{
    let n = lines.len();
    let mut out: Vec<u8> = Vec::new();
    let mut i: usize = 0;
    while i < n
        invariant
            n == lines@.len(),
            i <= n,
            out@ == join_lines_spec(lines.deep_view().take(i as int)),
        decreases n - i,
    {
        if i > 0 {
            out.push(10);
        }
        append_bytes(&mut out, lines[i].as_slice());
        proof {
            let ldv = lines.deep_view();
            assert(ldv.take(i + 1 as int) =~~= ldv.take(i as int).push(ldv[i as int]));
            if i > 0 {
                lemma_join_push(ldv.take(i as int), ldv[i as int]);
            } else {
                assert(ldv.take(1).drop_first() =~~= Seq::<Seq<u8>>::empty());
            }
            assert(out@ =~= join_lines_spec(ldv.take(i + 1 as int)));
        }
        i += 1;
    }
    assert(lines.deep_view().take(n as int) =~~= lines.deep_view());
    out
}

/// A managed mount-table entry: the line it serializes to mounts an
/// in-memory filesystem of kind `fs` at the `target` path with the given
/// mount options.
pub struct MountTableEntry {
    pub fs: MountType,
    pub target: Vec<u8>,
    pub options: Vec<u8>,
}

/// A byte sequence that can stand as one whitespace-separated field of a
/// mount-table line: non-empty, and free of separators and newlines.
pub open spec fn valid_field(f: Seq<u8>) -> bool {
    f.len() > 0 && (forall|i: int| 0 <= i < f.len() ==> !is_ws(f[i]) && f[i] != 10)
}

/// The bytes of the option field `defaults`.
pub open spec fn default_options_bytes() -> Seq<u8> {
    seq![100u8, 101u8, 102u8, 97u8, 117u8, 108u8, 116u8, 115u8]
}

/// The serialized line of a managed entry, in the conventional six-field
/// layout: source token, target path, filesystem type, options, dump flag,
/// pass number. The filesystem-type name doubles as the source token, and
/// the dump flag and pass number are both `0`.
pub open spec fn entry_line_bytes(fs: MountType, target: Seq<u8>, options: Seq<u8>) -> Seq<u8> {
    spec_system_name_bytes(fs) + seq![32u8] + target + seq![32u8] + spec_system_name_bytes(fs)
        + seq![32u8] + options + seq![32u8, 48u8, 32u8, 48u8]
}

impl MountTableEntry {
    /// The serialized line of this entry.
    pub open spec fn spec_line(self) -> Seq<u8> {
        entry_line_bytes(self.fs, self.target@, self.options@)
    }

    /// Whether the entry's fields can stand in a mount-table line.
    pub open spec fn wf(self) -> bool {
        valid_field(self.target@) && valid_field(self.options@)
    }

    /// An entry for `target` with the option field `defaults`.
    pub fn with_default_options(fs: MountType, target: Vec<u8>) -> (e: MountTableEntry)
        ensures
            e.fs == fs,
            e.target == target,
            e.options@ == default_options_bytes(),
    {
        let mut options: Vec<u8> = Vec::new();
        options.push(100);
        options.push(101);
        options.push(102);
        options.push(97);
        options.push(117);
        options.push(108);
        options.push(116);
        options.push(115);
        assert(options@ =~= default_options_bytes());
        MountTableEntry { fs, target, options }
    }

    /// The serialized line of this entry, as `entry_line_bytes` lays it
    /// out.
    pub fn serialize(&self) -> (out: Vec<u8>)
        ensures
            out@ == self.spec_line(),
    {
        let mut out = self.fs.system_name_bytes();
        out.push(32);
        append_bytes(&mut out, self.target.as_slice());
        out.push(32);
        let name = self.fs.system_name_bytes();
        append_bytes(&mut out, name.as_slice());
        out.push(32);
        append_bytes(&mut out, self.options.as_slice());
        out.push(32);
        out.push(48);
        out.push(32);
        out.push(48);
        assert(out@ =~= self.spec_line());
        out
    }
}

/// The lines of `lines` with every entry for `target` dropped; all other
/// lines are kept, in their order.
pub open spec fn remove_entry_spec(lines: Seq<Seq<u8>>, target: Seq<u8>) -> Seq<Seq<u8>>
    decreases lines.len(),
{
    if lines.len() == 0 {
        seq![]
    } else {
        let rest = remove_entry_spec(lines.drop_first(), target);
        if is_entry_for(lines[0], target) {
            rest
        } else {
            seq![lines[0]] + rest
        }
    }
}

/// The entries for `target` among `lines`, in their order.
pub open spec fn matching_of(lines: Seq<Seq<u8>>, target: Seq<u8>) -> Seq<Seq<u8>>
    decreases lines.len(),
{
    if lines.len() == 0 {
        seq![]
    } else {
        let rest = matching_of(lines.drop_first(), target);
        if is_entry_for(lines[0], target) {
            seq![lines[0]] + rest
        } else {
            rest
        }
    }
}

/// Whether some line of `lines` is an entry for `target`.
pub open spec fn has_entry_for(lines: Seq<Seq<u8>>, target: Seq<u8>) -> bool {
    exists|i: int| 0 <= i < lines.len() && is_entry_for(lines[i], target)
}

/// The lines of `lines` with the first entry for `target` replaced by the
/// line `l` in place, every later entry for `target` dropped, and all
/// other lines kept in their order.
pub open spec fn replace_entry_spec(lines: Seq<Seq<u8>>, target: Seq<u8>, l: Seq<u8>) -> Seq<
    Seq<u8>,
>
    decreases lines.len(),
{
    if lines.len() == 0 {
        seq![]
    } else if is_entry_for(lines[0], target) {
        seq![l] + remove_entry_spec(lines.drop_first(), target)
    } else {
        seq![lines[0]] + replace_entry_spec(lines.drop_first(), target, l)
    }
}

/// `c` with the line `l` appended at the end, keeping the content's
/// trailing-newline style: a content that ended in a newline still does,
/// one that did not still does not, and an empty content becomes the one
/// line with a terminating newline.
pub open spec fn append_line_spec(c: Seq<u8>, l: Seq<u8>) -> Seq<u8> {
    if c.len() == 0 {
        l + seq![10u8]
    } else if c[c.len() - 1] == 10 {
        c + l + seq![10u8]
    } else {
        c + seq![10u8] + l
    }
}

/// The table content after an upsert of the entry line `l` for `target`:
/// when some line of `c` is an entry for `target`, the first such line is
/// replaced in place by `l` and any later ones are dropped; otherwise `l`
/// is appended at the end.
pub open spec fn upsert_table_spec(c: Seq<u8>, target: Seq<u8>, l: Seq<u8>) -> Seq<u8> {
    if has_entry_for(split_lines_spec(c), target) {
        join_lines_spec(replace_entry_spec(split_lines_spec(c), target, l))
    } else {
        append_line_spec(c, l)
    }
}

/// The table content after the removal of every entry for `target`.
pub open spec fn remove_table_spec(c: Seq<u8>, target: Seq<u8>) -> Seq<u8> {
    join_lines_spec(remove_entry_spec(split_lines_spec(c), target))
}

/// A byte sequence free of newline bytes, as every line of a split is.
pub open spec fn nl_free(l: Seq<u8>) -> bool {
    forall|j: int| 0 <= j < l.len() ==> l[j] != 10
}

/// Every line of the sequence is free of newline bytes.
pub open spec fn lines_nl_free(lines: Seq<Seq<u8>>) -> bool {
    forall|p: int| 0 <= p < lines.len() ==> nl_free(#[trigger] lines[p])
}

/// Removing an entry that is not in the table changes nothing.
pub proof fn lemma_remove_absent(lines: Seq<Seq<u8>>, target: Seq<u8>)
    requires
        !has_entry_for(lines, target),
    ensures
        remove_entry_spec(lines, target) =~~= lines,
    decreases lines.len(),
{
    if lines.len() > 0 {
        assert(!is_entry_for(lines[0], target));
        assert(forall|i: int|
            0 <= i < lines.drop_first().len() ==> lines.drop_first()[i] == lines[i + 1]);
        lemma_remove_absent(lines.drop_first(), target);
    }
}

proof fn lemma_skip_ws_exact(line: Seq<u8>, i: int, m: int)
    requires
        0 <= i <= m <= line.len(),
        forall|j: int| i <= j < m ==> is_ws(line[j]),
        m < line.len() ==> !is_ws(line[m]),
    ensures
        skip_ws(line, i) == m,
    decreases m - i,
{
    if i < m {
        lemma_skip_ws_exact(line, i + 1, m);
    }
}

proof fn lemma_skip_token_exact(line: Seq<u8>, i: int, m: int)
    requires
        0 <= i <= m <= line.len(),
        forall|j: int| i <= j < m ==> !is_ws(line[j]),
        m < line.len() ==> is_ws(line[m]),
    ensures
        skip_token(line, i) == m,
    decreases m - i,
{
    if i < m {
        lemma_skip_token_exact(line, i + 1, m);
    }
}

/// The serialized line of a well-formed entry is the entry for its own
/// target, and holds no newline byte.
pub proof fn lemma_entry_line_parses(e: MountTableEntry)
    requires
        e.wf(),
    ensures
        is_entry_for(e.spec_line(), e.target@),
        nl_free(e.spec_line()),
{
    let line = e.spec_line();
    let n = spec_system_name_bytes(e.fs);
    let t = e.target@;
    let o = e.options@;
    let tl = t.len() as int;
    let ol = o.len() as int;
    assert(forall|j: int| 0 <= j < 5 ==> !is_ws(#[trigger] n[j]) && n[j] != 10 && n[j] != 35);
    assert(line.len() == 17 + tl + ol);
    assert(forall|j: int| 0 <= j < 5 ==> line[j] == n[j]);
    assert(line[5] == 32u8);
    assert(forall|j: int| 0 <= j < tl ==> line[6 + j] == t[j]);
    assert(line[6 + tl] == 32u8);
    assert(forall|j: int| 0 <= j < 5 ==> line[7 + tl + j] == n[j]);
    assert(line[12 + tl] == 32u8);
    assert(forall|j: int| 0 <= j < ol ==> line[13 + tl + j] == o[j]);
    assert(line[13 + tl + ol] == 32u8);
    assert(line[14 + tl + ol] == 48u8);
    assert(line[15 + tl + ol] == 32u8);
    assert(line[16 + tl + ol] == 48u8);
    lemma_skip_ws_exact(line, 0, 0);
    lemma_skip_token_exact(line, 0, 5);
    lemma_skip_ws_exact(line, 5, 6);
    lemma_skip_token_exact(line, 6, 6 + tl);
    assert(entry_target(line) == Some(line.subrange(6, 6 + tl)));
    assert(line.subrange(6, 6 + tl) =~= t);
    assert(!is_comment(line));
    assert(forall|j: int| 0 <= j < line.len() ==> #[trigger] line[j] != 10) by {
        assert(forall|j: int| 6 <= j < 6 + tl ==> #[trigger] line[j] == t[j - 6]);
        assert(forall|j: int| 7 + tl <= j < 12 + tl ==> #[trigger] line[j] == n[j - 7 - tl]);
        assert(forall|j: int| 13 + tl <= j < 13 + tl + ol ==> #[trigger] line[j] == o[j - 13 - tl]);
    }
}

/// No entry is in the table without some line matching it.
proof fn lemma_matching_absent(lines: Seq<Seq<u8>>, target: Seq<u8>)
    requires
        !has_entry_for(lines, target),
    ensures
        matching_of(lines, target) =~~= Seq::<Seq<u8>>::empty(),
    decreases lines.len(),
{
    if lines.len() > 0 {
        assert(!is_entry_for(lines[0], target));
        assert(forall|i: int|
            0 <= i < lines.drop_first().len() ==> lines.drop_first()[i] == lines[i + 1]);
        lemma_matching_absent(lines.drop_first(), target);
    }
}

proof fn lemma_remove_concat(a: Seq<Seq<u8>>, b: Seq<Seq<u8>>, target: Seq<u8>)
    ensures
        remove_entry_spec(a + b, target) =~~= remove_entry_spec(a, target) + remove_entry_spec(
            b,
            target,
        ),
    decreases a.len(),
{
    if a.len() == 0 {
        assert(a + b =~~= b);
    } else {
        assert((a + b)[0] == a[0]);
        assert((a + b).drop_first() =~~= a.drop_first() + b);
        lemma_remove_concat(a.drop_first(), b, target);
    }
}

proof fn lemma_matching_concat(a: Seq<Seq<u8>>, b: Seq<Seq<u8>>, target: Seq<u8>)
    ensures
        matching_of(a + b, target) =~~= matching_of(a, target) + matching_of(b, target),
    decreases a.len(),
{
    if a.len() == 0 {
        assert(a + b =~~= b);
    } else {
        assert((a + b)[0] == a[0]);
        assert((a + b).drop_first() =~~= a.drop_first() + b);
        lemma_matching_concat(a.drop_first(), b, target);
    }
}

/// After a removal no line for the target is left.
proof fn lemma_remove_no_entry(lines: Seq<Seq<u8>>, target: Seq<u8>)
    ensures
        !has_entry_for(remove_entry_spec(lines, target), target),
    decreases lines.len(),
{
    if lines.len() > 0 {
        let rest = remove_entry_spec(lines.drop_first(), target);
        lemma_remove_no_entry(lines.drop_first(), target);
        if !is_entry_for(lines[0], target) {
            let r = seq![lines[0]] + rest;
            if has_entry_for(r, target) {
                let i = choose|i: int| 0 <= i < r.len() && is_entry_for(r[i], target);
                if i > 0 {
                    assert(r[i] == rest[i - 1]);
                    assert(has_entry_for(rest, target));
                }
            }
        }
    }
}

proof fn lemma_remove_nl_free(lines: Seq<Seq<u8>>, target: Seq<u8>)
    requires
        lines_nl_free(lines),
    ensures
        lines_nl_free(remove_entry_spec(lines, target)),
    decreases lines.len(),
{
    if lines.len() > 0 {
        assert(forall|i: int|
            0 <= i < lines.drop_first().len() ==> lines.drop_first()[i] == lines[i + 1]);
        lemma_remove_nl_free(lines.drop_first(), target);
        let rest = remove_entry_spec(lines.drop_first(), target);
        if !is_entry_for(lines[0], target) {
            assert(forall|p: int|
                0 <= p < (seq![lines[0]] + rest).len() ==> nl_free(
                    #[trigger] (seq![lines[0]] + rest)[p],
                ));
        }
    }
}

proof fn lemma_replace_shape(lines: Seq<Seq<u8>>, target: Seq<u8>, l: Seq<u8>)
    requires
        lines_nl_free(lines),
        nl_free(l),
    ensures
        lines_nl_free(replace_entry_spec(lines, target, l)),
        lines.len() > 0 ==> replace_entry_spec(lines, target, l).len() > 0,
    decreases lines.len(),
{
    if lines.len() > 0 {
        assert(forall|i: int|
            0 <= i < lines.drop_first().len() ==> lines.drop_first()[i] == lines[i + 1]);
        if is_entry_for(lines[0], target) {
            lemma_remove_nl_free(lines.drop_first(), target);
            let rest = remove_entry_spec(lines.drop_first(), target);
            assert(forall|p: int|
                0 <= p < (seq![l] + rest).len() ==> nl_free(#[trigger] (seq![l] + rest)[p]));
        } else {
            lemma_replace_shape(lines.drop_first(), target, l);
            let rest = replace_entry_spec(lines.drop_first(), target, l);
            assert(forall|p: int|
                0 <= p < (seq![lines[0]] + rest).len() ==> nl_free(
                    #[trigger] (seq![lines[0]] + rest)[p],
                ));
        }
    }
}

/// After a replacement the lines for the target are exactly the one new
/// line when some line matched, and none otherwise.
proof fn lemma_replace_matching(lines: Seq<Seq<u8>>, target: Seq<u8>, l: Seq<u8>)
    requires
        is_entry_for(l, target),
    ensures
        matching_of(replace_entry_spec(lines, target, l), target) =~~= if has_entry_for(
            lines,
            target,
        ) {
            seq![l]
        } else {
            Seq::<Seq<u8>>::empty()
        },
    decreases lines.len(),
{
    if lines.len() == 0 {
        assert(!has_entry_for(lines, target));
    } else if is_entry_for(lines[0], target) {
        let rest = remove_entry_spec(lines.drop_first(), target);
        lemma_remove_no_entry(lines.drop_first(), target);
        lemma_matching_absent(rest, target);
        let r = seq![l] + rest;
        assert(r[0] == l);
        assert(r.drop_first() =~~= rest);
        assert(has_entry_for(lines, target));
    } else {
        lemma_replace_matching(lines.drop_first(), target, l);
        let rest = replace_entry_spec(lines.drop_first(), target, l);
        let r = seq![lines[0]] + rest;
        assert(r[0] == lines[0]);
        assert(r.drop_first() =~~= rest);
        assert(forall|i: int|
            0 <= i < lines.drop_first().len() ==> lines.drop_first()[i] == lines[i + 1]);
        if has_entry_for(lines, target) {
            let i = choose|i: int| 0 <= i < lines.len() && is_entry_for(lines[i], target);
            assert(i > 0);
            assert(lines.drop_first()[i - 1] == lines[i]);
            assert(has_entry_for(lines.drop_first(), target));
        } else {
            if has_entry_for(lines.drop_first(), target) {
                let i = choose|i: int|
                    0 <= i < lines.drop_first().len() && is_entry_for(
                        lines.drop_first()[i],
                        target,
                    );
                assert(is_entry_for(lines[i + 1], target));
            }
        }
    }
}

/// A replacement leaves the lines that are not for the target as a
/// removal would: unchanged, in their order.
proof fn lemma_remove_of_replace(lines: Seq<Seq<u8>>, target: Seq<u8>, l: Seq<u8>)
    requires
        is_entry_for(l, target),
    ensures
        remove_entry_spec(replace_entry_spec(lines, target, l), target) =~~= remove_entry_spec(
            lines,
            target,
        ),
    decreases lines.len(),
{
    if lines.len() == 0 {
    } else if is_entry_for(lines[0], target) {
        let rest = remove_entry_spec(lines.drop_first(), target);
        let r = seq![l] + rest;
        assert(r[0] == l);
        assert(r.drop_first() =~~= rest);
        lemma_remove_no_entry(lines.drop_first(), target);
        lemma_remove_absent(rest, target);
    } else {
        lemma_remove_of_replace(lines.drop_first(), target, l);
        let rest = replace_entry_spec(lines.drop_first(), target, l);
        let r = seq![lines[0]] + rest;
        assert(r[0] == lines[0]);
        assert(r.drop_first() =~~= rest);
    }
}

/// A content that ends in a newline splits into at least two lines, the
/// last of them empty.
proof fn lemma_split_trailing(c: Seq<u8>)
    requires
        c.len() > 0,
        c[c.len() - 1] == 10,
    ensures
        split_lines_spec(c).len() >= 2,
        split_lines_spec(c).last() =~= Seq::<u8>::empty(),
    decreases c.len(),
{
    lemma_nl_off_bounds(c, 0);
    let k = nl_off(c, 0) as int;
    assert(k < c.len());
    let rest = c.subrange(k + 1, c.len() as int);
    if rest.len() == 0 {
        assert(split_lines_spec(rest) =~~= seq![rest]);
    } else {
        assert(rest[rest.len() - 1] == c[c.len() - 1]);
        lemma_split_trailing(rest);
    }
    lemma_split_shape(rest);
    assert(split_lines_spec(c).last() == split_lines_spec(rest).last());
}

/// How appending a line changes the split of a content: the new line
/// stands where the old content ended, before its trailing empty line if
/// it had one.
proof fn lemma_append_line_split(c: Seq<u8>, l: Seq<u8>)
    requires
        nl_free(l),
    ensures
        split_lines_spec(append_line_spec(c, l)) =~~= if c.len() == 0 {
            seq![l, Seq::<u8>::empty()]
        } else if c[c.len() - 1] == 10 {
            split_lines_spec(c).drop_last() + seq![l, Seq::<u8>::empty()]
        } else {
            split_lines_spec(c).push(l)
        },
{
    lemma_split_shape(c);
    if c.len() == 0 {
        let ys = seq![l, Seq::<u8>::empty()];
        assert(join_lines_spec(ys.drop_first()) == ys[1] && ys.drop_first().len() == 1) by {
            assert(ys.drop_first() =~~= seq![Seq::<u8>::empty()]);
        }
        assert(join_lines_spec(ys) =~= l + seq![10u8]);
        assert(lines_nl_free(ys));
        lemma_split_of_join(ys);
    } else if c[c.len() - 1] == 10 {
        let xs = split_lines_spec(c);
        lemma_split_trailing(c);
        lemma_join_of_split(c);
        let front = xs.drop_last();
        assert(front.len() > 0);
        let ys = front + seq![l, Seq::<u8>::empty()];
        assert(ys =~~= front.push(l).push(Seq::<u8>::empty()));
        lemma_join_push(front, l);
        lemma_join_push(front.push(l), Seq::<u8>::empty());
        assert(xs =~~= front.push(xs.last()));
        lemma_join_push(front, xs.last());
        assert(c == join_lines_spec(front) + seq![10u8] + Seq::<u8>::empty()) by {
            assert(xs.last() =~= Seq::<u8>::empty());
        }
        assert(join_lines_spec(ys) =~= c + l + seq![10u8]);
        assert(lines_nl_free(ys)) by {
            assert(forall|p: int| 0 <= p < front.len() ==> front[p] == xs[p]);
        }
        lemma_split_of_join(ys);
    } else {
        let xs = split_lines_spec(c);
        let ys = xs.push(l);
        lemma_join_push(xs, l);
        lemma_join_of_split(c);
        assert(join_lines_spec(ys) =~= c + seq![10u8] + l);
        assert(lines_nl_free(ys));
        lemma_split_of_join(ys);
    }
}

/// After an upsert the table holds exactly one line for the target — the
/// upserted line — and the lines that are not for the target are those of
/// the old table, unchanged and in their order.
pub proof fn lemma_upsert_exactly_one(c: Seq<u8>, target: Seq<u8>, l: Seq<u8>)
    requires
        is_entry_for(l, target),
        nl_free(l),
    ensures
        matching_of(split_lines_spec(upsert_table_spec(c, target, l)), target) =~~= seq![l],
        remove_entry_spec(split_lines_spec(upsert_table_spec(c, target, l)), target)
            =~~= remove_entry_spec(split_lines_spec(c), target),
{
    let lines = split_lines_spec(c);
    lemma_split_shape(c);
    if has_entry_for(lines, target) {
        let rep = replace_entry_spec(lines, target, l);
        lemma_replace_shape(lines, target, l);
        lemma_split_of_join(rep);
        lemma_replace_matching(lines, target, l);
        lemma_remove_of_replace(lines, target, l);
    } else {
        lemma_append_line_split(c, l);
        lemma_remove_absent(lines, target);
        lemma_matching_absent(lines, target);
        let tailpair = seq![l, Seq::<u8>::empty()];
        assert(!is_entry_for(Seq::<u8>::empty(), target));
        assert(matching_of(Seq::<Seq<u8>>::empty(), target) =~~= Seq::<Seq<u8>>::empty());
        assert(remove_entry_spec(Seq::<Seq<u8>>::empty(), target) =~~= Seq::<Seq<u8>>::empty());
        assert(seq![Seq::<u8>::empty()].drop_first() =~~= Seq::<Seq<u8>>::empty());
        assert(matching_of(seq![Seq::<u8>::empty()], target) =~~= Seq::<Seq<u8>>::empty());
        assert(remove_entry_spec(seq![Seq::<u8>::empty()], target) =~~= seq![Seq::<u8>::empty()]);
        assert(tailpair[0] == l);
        assert(tailpair.drop_first() =~~= seq![Seq::<u8>::empty()]);
        assert(matching_of(tailpair, target) =~~= seq![l]);
        assert(remove_entry_spec(tailpair, target) =~~= seq![Seq::<u8>::empty()]);
        if c.len() == 0 {
            assert(split_lines_spec(c) =~~= seq![c]);
            assert(remove_entry_spec(seq![c], target) =~~= seq![Seq::<u8>::empty()]) by {
                assert(seq![c].drop_first() =~~= Seq::<Seq<u8>>::empty());
                assert(c =~= Seq::<u8>::empty());
            }
        } else if c[c.len() - 1] == 10 {
            let xs = lines;
            lemma_split_trailing(c);
            let front = xs.drop_last();
            lemma_matching_concat(front, tailpair, target);
            lemma_remove_concat(front, tailpair, target);
            assert(forall|p: int| 0 <= p < front.len() ==> front[p] == xs[p]);
            assert(!has_entry_for(front, target)) by {
                if has_entry_for(front, target) {
                    let i = choose|i: int| 0 <= i < front.len() && is_entry_for(front[i], target);
                    assert(is_entry_for(xs[i], target));
                }
            }
            lemma_matching_absent(front, target);
            lemma_remove_absent(front, target);
            assert(xs =~~= front + seq![xs.last()]);
            lemma_matching_concat(front, seq![xs.last()], target);
            lemma_remove_concat(front, seq![xs.last()], target);
            assert(xs.last() =~= Seq::<u8>::empty());
            assert(matching_of(seq![xs.last()], target) =~~= Seq::<Seq<u8>>::empty() &&
                remove_entry_spec(seq![xs.last()], target) =~~= seq![xs.last()]) by {
                assert(seq![xs.last()].drop_first() =~~= Seq::<Seq<u8>>::empty());
            }
        } else {
            let xs = lines;
            assert(xs.push(l) =~~= xs + seq![l]);
            lemma_matching_concat(xs, seq![l], target);
            lemma_remove_concat(xs, seq![l], target);
            assert(matching_of(Seq::<Seq<u8>>::empty(), target) =~~= Seq::<Seq<u8>>::empty());
            assert(remove_entry_spec(Seq::<Seq<u8>>::empty(), target) =~~= Seq::<
                Seq<u8>,
            >::empty());
            assert(seq![l].drop_first() =~~= Seq::<Seq<u8>>::empty());
            assert(matching_of(seq![l], target) =~~= seq![l]);
            assert(remove_entry_spec(seq![l], target) =~~= Seq::<Seq<u8>>::empty());
        }
    }
}

/// Upserting an entry for the same target twice — with different options,
/// say — leaves exactly one line for that target, the one upserted last,
/// and every line not for the target unchanged and in its original order.
pub proof fn lemma_upsert_twice(c: Seq<u8>, target: Seq<u8>, l1: Seq<u8>, l2: Seq<u8>)
    requires
        is_entry_for(l1, target),
        is_entry_for(l2, target),
        nl_free(l1),
        nl_free(l2),
    ensures
        matching_of(
            split_lines_spec(upsert_table_spec(upsert_table_spec(c, target, l1), target, l2)),
            target,
        ) =~~= seq![l2],
        remove_entry_spec(
            split_lines_spec(upsert_table_spec(upsert_table_spec(c, target, l1), target, l2)),
            target,
        ) =~~= remove_entry_spec(split_lines_spec(c), target),
{
    lemma_upsert_exactly_one(c, target, l1);
    lemma_upsert_exactly_one(upsert_table_spec(c, target, l1), target, l2);
}

/// Upserting two well-formed entries for the same target — the same entry
/// with different options, say — leaves exactly one line for that target,
/// the serialized later entry, while the lines for other targets are those
/// of the original table, unchanged and in their order.
pub proof fn lemma_upsert_entry_twice(c: Seq<u8>, e1: MountTableEntry, e2: MountTableEntry)
    requires
        e1.wf(),
        e2.wf(),
        e1.target@ == e2.target@,
    ensures
        matching_of(
            split_lines_spec(
                upsert_table_spec(
                    upsert_table_spec(c, e1.target@, e1.spec_line()),
                    e2.target@,
                    e2.spec_line(),
                ),
            ),
            e2.target@,
        ) =~~= seq![e2.spec_line()],
        remove_entry_spec(
            split_lines_spec(
                upsert_table_spec(
                    upsert_table_spec(c, e1.target@, e1.spec_line()),
                    e2.target@,
                    e2.spec_line(),
                ),
            ),
            e2.target@,
        ) =~~= remove_entry_spec(split_lines_spec(c), e2.target@),
{
    lemma_entry_line_parses(e1);
    lemma_entry_line_parses(e2);
    lemma_upsert_twice(c, e2.target@, e1.spec_line(), e2.spec_line());
}

/// Whether `line` is the managed entry for `target`.
pub fn line_is_entry_for(line: &[u8], target: &[u8]) -> (r: bool)
    ensures
        r == is_entry_for(line@, target@),
{
    let a = scan_past_ws(line, 0);
    if a < line.len() && line[a] == 35 {
        return false;
    }
    let b = scan_past_token(line, a);
    let c = scan_past_ws(line, b);
    if c >= line.len() {
        return false;
    }
    let d = scan_past_token(line, c);
    proof {
        lemma_skip_token_bounds(line@, c as int);
    }
    let field = &line[c..d];
    bytes_eq(field, target)
}

/// `c` with the line `l` appended, in the content's trailing-newline
/// style.
fn append_line(c: &[u8], l: &[u8]) -> (out: Vec<u8>)
    ensures
        out@ == append_line_spec(c@, l@),
{
    let mut out: Vec<u8> = Vec::new();
    if c.len() == 0 {
        append_bytes(&mut out, l);
        out.push(10);
        assert(out@ =~= append_line_spec(c@, l@));
    } else if c[c.len() - 1] == 10 {
        append_bytes(&mut out, c);
        append_bytes(&mut out, l);
        out.push(10);
        assert(out@ =~= append_line_spec(c@, l@));
    } else {
        append_bytes(&mut out, c);
        out.push(10);
        append_bytes(&mut out, l);
        assert(out@ =~= append_line_spec(c@, l@));
    }
    out
}

/// Rewrites the table content `content` so that it holds exactly one entry
/// for the target of `entry`: an existing first entry for that target is
/// replaced in place, later ones are dropped, and when there is none the
/// serialized entry is appended at the end. Every other line passes
/// through byte for byte, in its original order.
pub fn upsert_entry(content: &[u8], entry: &MountTableEntry) -> (out: Vec<u8>)
    ensures
        out@ == upsert_table_spec(content@, entry.target@, entry.spec_line()),
{
    let line = entry.serialize();
    let lines = split_lines(content);
    let ghost ldv = lines.deep_view();
    let n = lines.len();
    let mut out_lines: Vec<Vec<u8>> = Vec::new();
    let mut found = false;
    let mut i: usize = 0;
    proof {
        assert(ldv.skip(0) =~~= ldv);
        assert(out_lines.deep_view() =~~= Seq::<Seq<u8>>::empty());
    }
    while i < n
        invariant
            n == ldv.len(),
            n == lines@.len(),
            ldv == lines.deep_view(),
            line@ == entry.spec_line(),
            i <= n,
            forall|j: int| 0 <= j < i && !found ==> !is_entry_for(ldv[j], entry.target@),
            found ==> has_entry_for(ldv, entry.target@),
            !found ==> out_lines.deep_view() + replace_entry_spec(
                ldv.skip(i as int),
                entry.target@,
                entry.spec_line(),
            ) =~~= replace_entry_spec(ldv, entry.target@, entry.spec_line()),
            found ==> out_lines.deep_view() + remove_entry_spec(ldv.skip(i as int), entry.target@)
                =~~= replace_entry_spec(ldv, entry.target@, entry.spec_line()),
        decreases n - i,
    {
        let is_match = line_is_entry_for(lines[i].as_slice(), entry.target.as_slice());
        proof {
            assert(lines[i as int]@ == ldv[i as int]);
            assert(ldv.skip(i as int).len() > 0);
            assert(ldv.skip(i as int)[0] == ldv[i as int]);
            assert(ldv.skip(i as int).drop_first() =~~= ldv.skip(i + 1 as int));
        }
        if is_match {
            if !found {
                let entry_line = entry.serialize();
                out_lines.push(entry_line);
                found = true;
            }
        } else {
            let kept = slice_to_vec(lines[i].as_slice());
            out_lines.push(kept);
        }
        i += 1;
    }
    proof {
        assert(ldv.skip(n as int) =~~= Seq::<Seq<u8>>::empty());
        if found {
            assert(out_lines.deep_view() =~~= replace_entry_spec(
                ldv,
                entry.target@,
                entry.spec_line(),
            ));
        } else {
            assert(!has_entry_for(ldv, entry.target@));
        }
    }
    if found {
        join_lines(&out_lines)
    } else {
        append_line(content, line.as_slice())
    }
}

/// Drops every line whose target-path field is `target` from the table
/// content; every other line passes through byte for byte, in its original
/// order. Removing an absent entry is a no-op: the content comes back
/// unchanged.
pub fn remove_entry(content: &[u8], target: &[u8]) -> (out: Vec<u8>)
    ensures
        out@ == remove_table_spec(content@, target@),
        !has_entry_for(split_lines_spec(content@), target@) ==> out@ == content@,
{
    let lines = split_lines(content);
    let ghost ldv = lines.deep_view();
    let n = lines.len();
    let mut kept: Vec<Vec<u8>> = Vec::new();
    let mut i: usize = 0;
    proof {
        assert(ldv.skip(0) =~~= ldv);
        assert(kept.deep_view() =~~= Seq::<Seq<u8>>::empty());
    }
    while i < n
        invariant
            n == ldv.len(),
            n == lines@.len(),
            ldv == lines.deep_view(),
            i <= n,
            kept.deep_view() + remove_entry_spec(ldv.skip(i as int), target@)
                =~~= remove_entry_spec(ldv, target@),
        decreases n - i,
    {
        let is_match = line_is_entry_for(lines[i].as_slice(), target);
        proof {
            assert(lines[i as int]@ == ldv[i as int]);
            assert(ldv.skip(i as int).len() > 0);
            assert(ldv.skip(i as int)[0] == ldv[i as int]);
            assert(ldv.skip(i as int).drop_first() =~~= ldv.skip(i + 1 as int));
        }
        if !is_match {
            let line = slice_to_vec(lines[i].as_slice());
            kept.push(line);
        }
        i += 1;
    }
    proof {
        assert(ldv.skip(n as int) =~~= Seq::<Seq<u8>>::empty());
        assert(kept.deep_view() =~~= remove_entry_spec(ldv, target@));
        if !has_entry_for(ldv, target@) {
            lemma_remove_absent(ldv, target@);
            lemma_join_of_split(content@);
        }
    }
    join_lines(&kept)
}

} // verus!
