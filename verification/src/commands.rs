//! The computing side of the plugin's commands: how pane contents become
//! text, what input becomes, how shell names and file paths are worked
//! out, and how file and directory results are shaped.
use vstd::prelude::*;

use crate::protocol::{
    opt_view, DirEntry, ListDirResponse, ReadFileResponse, SendInputPayload, WriteFileResponse,
};
use crate::text::{
    concat2, join, join_bounds, join_strings, line_bounds, lines, lines_acc, owned, pieces,
    push_chars, strip_cr,
    push_str, replace, replace_all, str_chars, string_from_chars, string_views, u64_to_decimal,
    decimal,
};

verus! {

broadcast use vstd::string::group_string_axioms;

/// A pane of the terminal multiplexer.
#[derive(Clone, Copy, Debug, PartialEq, Eq, Structural)]
pub enum PaneId {
    Terminal(u32),
    Plugin(u32),
}

/// What a pane shows: the lines of its viewport.
#[derive(Debug)]
pub struct PaneContents {
    pub viewport: Vec<String>,
}

impl View for PaneContents {
    type V = Seq<Seq<char>>;

    open spec fn view(&self) -> Seq<Seq<char>> {
        string_views(self.viewport@)
    }
}

/// The plain text of a viewport: its lines joined by newlines.
pub open spec fn screen_text(viewport: Seq<Seq<char>>) -> Seq<char> {
    join(viewport, seq!['\n'])
}

/// Converts pane contents to a single plain-text string (viewport only).
pub fn pane_contents_to_text(contents: &PaneContents) -> (r: String)
    ensures
        r@ == screen_text(contents@),
{
    proof {
        reveal_strlit("\n");
        assert("\n"@ =~= seq!['\n']);
    }
    join_strings(&contents.viewport, "\n")
}


// ── Input ─────────────────────────────────────────────────────────

/// The text written for `send_input`: every escaped newline, the two
/// characters `\` and `n`, becomes a carriage return.
pub open spec fn input_text(input: Seq<char>) -> Seq<char> {
    replace(input, seq!['\\', 'n'], seq!['\r'])
}

/// The characters to write to the pane for a `send_input` request.
pub fn send_input_text(payload: &SendInputPayload) -> (r: String)
    ensures
        r@ == input_text(payload.input@),
{
    proof {
        reveal_strlit("\\n");
        reveal_strlit("\r");
        assert("\\n"@ =~= seq!['\\', 'n']);
        assert("\r"@ =~= seq!['\r']);
    }
    replace_all(payload.input.as_str(), "\\n", "\r")
}

// ── Paths ─────────────────────────────────────────────────────────

/// `s` without trailing separators and trailing `.` components: where a
/// path's last component ends.
pub open spec fn trim_trailing(s: Seq<char>) -> Seq<char>
    decreases s.len(),
{
    if s.len() > 0 && s.last() == '/' {
        trim_trailing(s.drop_last())
    } else if s.len() > 0 && s.last() == '.' && (s.len() == 1 || s[s.len() - 2] == '/') {
        trim_trailing(s.drop_last())
    } else {
        s
    }
}

/// `s` without leading separators and leading `.` components: where a
/// path's first component starts.
pub open spec fn trim_leading(s: Seq<char>) -> Seq<char>
    decreases s.len(),
{
    if s.len() > 0 && s[0] == '/' {
        trim_leading(s.drop_first())
    } else if s.len() > 0 && s[0] == '.' && (s.len() == 1 || s[1] == '/') {
        trim_leading(s.drop_first())
    } else {
        s
    }
}

/// The characters after the last separator.
pub open spec fn last_segment(s: Seq<char>) -> Seq<char>
    decreases s.len(),
{
    if s.len() == 0 || s.last() == '/' {
        seq![]
    } else {
        last_segment(s.drop_last()).push(s.last())
    }
}

/// The characters before the first separator.
pub open spec fn first_segment(s: Seq<char>) -> Seq<char>
    decreases s.len(),
{
    if s.len() == 0 || s[0] == '/' {
        seq![]
    } else {
        seq![s[0]] + first_segment(s.drop_first())
    }
}

/// The final component of a path if it is a name (`Path::file_name`): absent
/// for an empty path, the root, or a path ending in `..`.
pub open spec fn file_name(p: Seq<char>) -> Option<Seq<char>> {
    let seg = last_segment(trim_trailing(p));
    if seg.len() == 0 || seg == seq!['.', '.'] {
        None
    } else {
        Some(seg)
    }
}

/// `base` extended by `p` (`Path::join`): `p` itself where it is absolute,
/// and otherwise `p` after `base` with a separator between them where
/// `base` is not empty and does not end in one.
pub open spec fn join_path(base: Seq<char>, p: Seq<char>) -> Seq<char> {
    if p.len() > 0 && p[0] == '/' {
        p
    } else if base.len() == 0 || base.last() == '/' {
        base + p
    } else {
        base + seq!['/'] + p
    }
}

/// The directory under which the host's root is mounted for plugins.
pub open spec fn host_root() -> Seq<char> {
    seq!['/', 'h', 'o', 's', 't']
}

/// An absolute path whose first component is `host`.
pub open spec fn under_host(p: Seq<char>) -> bool {
    first_segment(trim_leading(p)) == seq!['h', 'o', 's', 't']
}

/// Where a path is found from inside the plugin: an absolute path not
/// already under `/host` moves under it, keeping its components; any other
/// path stays as it is.
pub open spec fn host_path(p: Seq<char>) -> Seq<char> {
    if p.len() > 0 && p[0] == '/' && !under_host(p) {
        join_path(host_root(), trim_trailing(trim_leading(p)))
    } else {
        p
    }
}

/// The path a file request names: absolute paths as given, others relative
/// to `cwd`; then mapped under `/host`.
pub open spec fn request_path(cwd: Seq<char>, path: Seq<char>) -> Seq<char> {
    host_path(
        if path.len() > 0 && path[0] == '/' {
            path
        } else {
            join_path(cwd, path)
        },
    )
}

/// Where the final component of `cs` ends, once trailing separators and `.`
/// components are dropped, looking no further left than `lo`.
fn trailing_end(cs: &[char], lo: usize) -> (r: usize)
    requires
        lo <= cs@.len(),
    ensures
        lo <= r <= cs@.len(),
        cs@.subrange(lo as int, r as int) == trim_trailing(cs@.skip(lo as int)),
{
    let mut j = cs.len();
    assert(cs@.subrange(lo as int, j as int) =~= cs@.skip(lo as int));
    while j > lo && (cs[j - 1] == '/' || (cs[j - 1] == '.' && (j - 1 == lo || cs[j - 2] == '/')))
        invariant
            lo <= j <= cs@.len(),
            trim_trailing(cs@.skip(lo as int)) == trim_trailing(cs@.subrange(lo as int, j as int)),
        decreases j,
    {
        let ghost t = cs@.subrange(lo as int, j as int);
        assert(t.drop_last() =~= cs@.subrange(lo as int, j - 1));
        assert(t.last() == cs@[j - 1]);
        assert(j - lo >= 2 ==> t[t.len() - 2] == cs@[j - 2]);
        j = j - 1;
    }
    j
}

/// Where the first component of `cs` starts, once leading separators and `.`
/// components are dropped.
fn leading_start(cs: &[char]) -> (r: usize)
    ensures
        r <= cs@.len(),
        cs@.skip(r as int) == trim_leading(cs@),
        r < cs@.len() ==> cs@[r as int] != '/',
{
    let mut i: usize = 0;
    assert(cs@.skip(0) =~= cs@);
    while i < cs.len() && (cs[i] == '/' || (cs[i] == '.' && (i + 1 == cs.len() || cs[i + 1]
        == '/')))
        invariant
            i <= cs@.len(),
            trim_leading(cs@) == trim_leading(cs@.skip(i as int)),
        decreases cs@.len() - i,
    {
        let ghost t = cs@.skip(i as int);
        assert(t.drop_first() =~= cs@.skip(i + 1));
        assert(t[0] == cs@[i as int]);
        assert(i + 1 < cs@.len() ==> t[1] == cs@[i + 1]);
        i = i + 1;
    }
    i
}

/// Whether the first component of `cs[i..]` is `host`, where `cs[i..]`
/// starts at a component.
fn first_component_is_host(cs: &[char], i: usize) -> (r: bool)
    requires
        i <= cs@.len(),
    ensures
        r == (first_segment(cs@.skip(i as int)) == seq!['h', 'o', 's', 't']),
{
    let mut k = i;
    assert(cs@.subrange(i as int, i as int) + first_segment(cs@.skip(i as int)) =~= first_segment(
        cs@.skip(i as int),
    ));
    while k < cs.len() && cs[k] != '/'
        invariant
            i <= k <= cs@.len(),
            first_segment(cs@.skip(i as int)) == cs@.subrange(i as int, k as int) + first_segment(
                cs@.skip(k as int),
            ),
        decreases cs@.len() - k,
    {
        let ghost t = cs@.skip(k as int);
        assert(t.drop_first() =~= cs@.skip(k + 1));
        assert(t[0] == cs@[k as int]);
        assert(cs@.subrange(i as int, k + 1) =~= cs@.subrange(i as int, k as int) + seq![
            cs@[k as int],
        ]);
        k = k + 1;
    }
    assert(first_segment(cs@.skip(k as int)) =~= Seq::<char>::empty());
    assert(first_segment(cs@.skip(i as int)) =~= cs@.subrange(i as int, k as int));
    if k - i != 4 {
        return false;
    }
    let r = cs[i] == 'h' && cs[i + 1] == 'o' && cs[i + 2] == 's' && cs[i + 3] == 't';
    let ghost seg = cs@.subrange(i as int, k as int);
    assert(seg[0] == cs@[i as int] && seg[1] == cs@[i + 1] && seg[2] == cs@[i + 2] && seg[3]
        == cs@[i + 3]);
    if r {
        assert(seg =~= seq!['h', 'o', 's', 't']);
    }
    r
}

/// Zellij mounts the host root at `/host` for plugins: maps an absolute path
/// into that tree.
pub fn map_host_path(path: &str) -> (r: String)
    ensures
        r@ == host_path(path@),
{
    let cs = str_chars(path);
    if cs.len() == 0 || cs[0] != '/' {
        return owned(path);
    }
    let i = leading_start(cs.as_slice());
    if first_component_is_host(cs.as_slice(), i) {
        return owned(path);
    }
    let j = trailing_end(cs.as_slice(), i);
    let mut r = owned("/host/");
    proof {
        reveal_strlit("/host/");
    }
    push_chars(&mut r, cs.as_slice(), i, j);
    let ghost rest = cs@.subrange(i as int, j as int);
    assert(rest.len() > 0 ==> rest[0] == cs@[i as int]);
    assert(r@ =~= host_root() + seq!['/'] + rest);
    r
}

/// What `trim_leading` leaves does not start with a separator.
proof fn lemma_trim_leading_no_separator(s: Seq<char>)
    ensures
        trim_leading(s).len() > 0 ==> trim_leading(s)[0] != '/',
    decreases s.len(),
{
    if s.len() > 0 && s[0] == '/' {
        lemma_trim_leading_no_separator(s.drop_first());
    } else if s.len() > 0 && s[0] == '.' && (s.len() == 1 || s[1] == '/') {
        lemma_trim_leading_no_separator(s.drop_first());
    }
}

/// What `trim_trailing` leaves is a prefix.
proof fn lemma_trim_trailing_prefix(s: Seq<char>)
    ensures
        trim_trailing(s).len() <= s.len(),
        trim_trailing(s) == s.take(trim_trailing(s).len() as int),
    decreases s.len(),
{
    if s.len() > 0 && (s.last() == '/' || (s.last() == '.' && (s.len() == 1 || s[s.len() - 2]
        == '/'))) {
        lemma_trim_trailing_prefix(s.drop_last());
        let t = trim_trailing(s.drop_last());
        assert(s.drop_last().take(t.len() as int) =~= s.take(t.len() as int));
    } else {
        assert(s.take(s.len() as int) =~= s);
    }
}

/// Mapping a path under `/host` twice gives what mapping it once gives: a
/// mapped path is already under `/host`.
pub proof fn lemma_host_path_idempotent(p: Seq<char>)
    ensures
        host_path(host_path(p)) == host_path(p),
{
    if p.len() > 0 && p[0] == '/' && !under_host(p) {
        let lead = trim_leading(p);
        let rest = trim_trailing(lead);
        lemma_trim_leading_no_separator(p);
        lemma_trim_trailing_prefix(lead);
        assert(rest.len() > 0 ==> rest[0] == lead[0]);
        let q = host_path(p);
        let t = seq!['h', 'o', 's', 't', '/'] + rest;
        assert(q =~= seq!['/'] + t);
        assert(q.drop_first() =~= t);
        assert(trim_leading(q) == trim_leading(t));
        assert(trim_leading(t) == t);
        let t1 = t.drop_first();
        let t2 = t1.drop_first();
        let t3 = t2.drop_first();
        let t4 = t3.drop_first();
        assert(t4[0] == '/');
        assert(first_segment(t4) =~= Seq::<char>::empty());
        assert(first_segment(t3) =~= seq!['t']);
        assert(first_segment(t2) =~= seq!['s', 't']);
        assert(first_segment(t1) =~= seq!['o', 's', 't']);
        assert(first_segment(t) =~= seq!['h', 'o', 's', 't']);
        assert(under_host(q));
    }
}

/// `Path::join`.
pub fn join_path_str(base: &str, p: &str) -> (r: String)
    ensures
        r@ == join_path(base@, p@),
{
    let pc = str_chars(p);
    if pc.len() > 0 && pc[0] == '/' {
        return owned(p);
    }
    let bc = str_chars(base);
    if bc.len() == 0 || bc[bc.len() - 1] == '/' {
        concat2(base, p)
    } else {
        let mut r = owned(base);
        push_str(&mut r, "/");
        push_str(&mut r, p);
        proof {
            reveal_strlit("/");
        }
        assert(r@ =~= base@ + seq!['/'] + p@);
        r
    }
}

/// The path a file request names, relative paths taken from `cwd`, mapped
/// under `/host`.
pub fn resolve_file_path(cwd: &str, path: &str) -> (r: String)
    ensures
        r@ == request_path(cwd@, path@),
{
    let pc = str_chars(path);
    let joined = if pc.len() > 0 && pc[0] == '/' {
        owned(path)
    } else {
        join_path_str(cwd, path)
    };
    map_host_path(joined.as_str())
}

/// The final component of a path (`Path::file_name`).
pub fn path_file_name(p: &str) -> (r: Option<String>)
    ensures
        opt_view(r) == file_name(p@),
{
    let cs = str_chars(p);
    let end = trailing_end(cs.as_slice(), 0);
    assert(cs@.skip(0) =~= cs@);
    let ghost t = cs@.subrange(0, end as int);
    let mut k = end;
    assert(t.subrange(k as int, end as int) =~= Seq::<char>::empty());
    assert(t.take(k as int) =~= t);
    while k > 0 && cs[k - 1] != '/'
        invariant
            k <= end <= cs@.len(),
            t == cs@.subrange(0, end as int),
            last_segment(t) == last_segment(t.take(k as int)) + cs@.subrange(k as int, end as int),
        decreases k,
    {
        let ghost u = t.take(k as int);
        assert(u.drop_last() =~= t.take(k - 1));
        assert(u.last() == cs@[k - 1]);
        assert(cs@.subrange(k - 1, end as int) =~= seq![cs@[k - 1]] + cs@.subrange(
            k as int,
            end as int,
        ));
        k = k - 1;
    }
    assert(last_segment(t.take(k as int)) =~= Seq::<char>::empty());
    assert(last_segment(t) =~= cs@.subrange(k as int, end as int));
    if k == end || (end - k == 2 && cs[k] == '.' && cs[k + 1] == '.') {
        assert(k < end ==> cs@.subrange(k as int, end as int) =~= seq!['.', '.']);
        None
    } else {
        assert(end - k == 2 ==> cs@.subrange(k as int, end as int)[0] == cs@[k as int]);
        assert(end - k == 2 ==> cs@.subrange(k as int, end as int)[1] == cs@[k + 1]);
        Some(string_from_chars(cs.as_slice(), k, end))
    }
}

// ── Shell names ───────────────────────────────────────────────────

/// The shell reported by `get_shell`: the file name of the pane's command
/// (its first word, or the empty string where there is none), or the
/// command itself where it has no file name.
pub open spec fn shell_name_of(command: Seq<Seq<char>>) -> Seq<char> {
    let shell = if command.len() > 0 {
        command[0]
    } else {
        seq![]
    };
    match file_name(shell) {
        Some(n) => n,
        None => shell,
    }
}

/// The shell reported in a heartbeat: the file name of the pane's command,
/// or `unknown` where there is no command or it has no file name.
pub open spec fn heartbeat_shell_of(command: Option<Seq<Seq<char>>>) -> Seq<char> {
    match command {
        Some(c) => if c.len() > 0 && file_name(c[0]) is Some {
            file_name(c[0])->0
        } else {
            "unknown"@
        },
        None => "unknown"@,
    }
}

/// The shell name for `get_shell`, from the pane's running command.
pub fn shell_name(command: &Vec<String>) -> (r: String)
    ensures
        r@ == shell_name_of(string_views(command@)),
{
    let shell = if command.len() > 0 {
        owned(command[0].as_str())
    } else {
        String::new()
    };
    match path_file_name(shell.as_str()) {
        Some(n) => n,
        None => shell,
    }
}

/// The shell name for a heartbeat, from the focused pane's running command
/// where it could be read.
pub fn heartbeat_shell(command: Option<&Vec<String>>) -> (r: String)
    ensures
        r@ == heartbeat_shell_of(
            match command {
                Some(c) => Some(string_views(c@)),
                None => None,
            },
        ),
{
    if let Some(c) = command {
        if c.len() > 0 {
            if let Some(n) = path_file_name(c[0].as_str()) {
                return n;
            }
        }
    }
    owned("unknown")
}

// ── Reading files ─────────────────────────────────────────────────

/// The first line `read_file` returns, and the line after the last one.
pub open spec fn window_bounds(total: nat, offset: usize, limit: usize) -> (int, int) {
    let start: int = if offset <= total {
        offset as int
    } else {
        total as int
    };
    let end: int = if start + limit <= total {
        start + limit
    } else {
        total as int
    };
    (start, end)
}

/// The text `read_file` returns: the lines of the window joined by
/// newlines, with a final newline where the file ends in one and the window
/// reaches its last line.
pub open spec fn read_window(full: Seq<char>, offset: usize, limit: usize) -> Seq<char> {
    let ls = lines(full);
    let (start, end) = window_bounds(ls.len(), offset, limit);
    let selected = join(ls.subrange(start, end), seq!['\n']);
    if full.len() > 0 && full.last() == '\n' && end == ls.len() {
        selected.push('\n')
    } else {
        selected
    }
}

/// The window can be worked out without overflow: its first line plus the
/// limit fits in a `usize`.
pub open spec fn window_fits(full: Seq<char>, offset: usize, limit: usize) -> bool {
    window_bounds(lines(full).len(), offset, limit).0 + limit <= usize::MAX
}

/// The response to `read_file` for a file holding `full_content`: `limit`
/// lines from line `offset`, the file's line count, and its encoding. `None`
/// where the end of the window overflows a `usize`.
pub fn read_file_response(full_content: &str, offset: usize, limit: usize) -> (r: Option<
    ReadFileResponse,
>)
    ensures
        r is Some <==> window_fits(full_content@, offset, limit),
        r matches Some(resp) ==> {
            &&& resp.content@ == read_window(full_content@, offset, limit)
            &&& resp.encoding@ == "utf-8"@
            &&& resp.total_lines == lines(full_content@).len()
        },
{
    let cs = str_chars(full_content);
    let bounds = line_bounds(cs.as_slice());
    let ghost ls = lines(cs@);
    let total = bounds.len();
    let start = if offset <= total {
        offset
    } else {
        total
    };
    let end = match start.checked_add(limit) {
        Some(e) => if e <= total {
            e
        } else {
            total
        },
        None => {
            return None;
        },
    };
    let selected = join_bounds(cs.as_slice(), bounds.as_slice(), start, end, "\n");
    proof {
        reveal_strlit("\n");
        assert("\n"@ =~= seq!['\n']);
        assert(pieces(cs@, bounds@.subrange(start as int, end as int)) =~= ls.subrange(
            start as int,
            end as int,
        ));
    }
    let ends_with_newline = cs.len() > 0 && cs[cs.len() - 1] == '\n';
    let content = if ends_with_newline && end == total {
        let mut c = selected;
        push_str(&mut c, "\n");
        c
    } else {
        selected
    };
    Some(ReadFileResponse { content, encoding: owned("utf-8"), total_lines: total })
}

/// The lines of `d`, each followed by a newline.
pub open spec fn terminated_lines(d: Seq<Seq<char>>) -> Seq<char>
    decreases d.len(),
{
    if d.len() == 0 {
        seq![]
    } else {
        terminated_lines(d.drop_last()) + d.last() + seq!['\n']
    }
}

proof fn lemma_join_push(d: Seq<Seq<char>>, x: Seq<char>)
    ensures
        join(d.push(x), seq!['\n']) == terminated_lines(d) + x,
    decreases d.len(),
{
    if d.len() == 0 {
        assert(d.push(x).len() == 1);
        assert(terminated_lines(d) + x =~= x);
    } else {
        assert(d.push(x).drop_last() =~= d);
        lemma_join_push(d.drop_last(), d.last());
        assert(d.drop_last().push(d.last()) =~= d);
    }
}

/// No carriage return stands right before a newline: `s` has no `\r\n`
/// line ending.
pub open spec fn no_crlf(s: Seq<char>) -> bool {
    forall|i: int| 0 <= i < s.len() - 1 ==> !(#[trigger] s[i] == '\r' && s[i + 1] == '\n')
}

proof fn lemma_lines_acc_rebuilds(s: Seq<char>)
    requires
        no_crlf(s),
    ensures
        terminated_lines(lines_acc(s).0) + lines_acc(s).1 == s,
        forall|i: int| 0 <= i < lines_acc(s).1.len() ==> lines_acc(s).1[i] != '\n',
        lines_acc(s).1.len() > 0 ==> lines_acc(s).1.last() == s.last(),
    decreases s.len(),
{
    if s.len() > 0 {
        let p = s.drop_last();
        assert forall|i: int| 0 <= i < p.len() - 1 implies !(#[trigger] p[i] == '\r' && p[i + 1]
            == '\n') by {
            assert(p[i] == s[i] && p[i + 1] == s[i + 1]);
        }
        lemma_lines_acc_rebuilds(p);
        let (d, cur) = lines_acc(p);
        if s.last() == '\n' {
            assert(strip_cr(cur) == cur) by {
                if cur.len() > 0 {
                    assert(cur.last() == s[s.len() - 2]);
                    assert(!(s[s.len() - 2] == '\r' && s[s.len() - 1] == '\n'));
                }
            }
            assert(terminated_lines(d.push(cur)) =~= terminated_lines(d) + cur + seq!['\n']) by {
                assert(d.push(cur).drop_last() =~= d);
            }
            assert(s =~= p.push('\n'));
            assert(terminated_lines(lines_acc(s).0) + lines_acc(s).1 =~= s);
        } else {
            assert(s =~= p.push(s.last()));
            assert(terminated_lines(lines_acc(s).0) + lines_acc(s).1 =~= s);
            let c2 = cur.push(s.last());
            assert forall|i: int| 0 <= i < c2.len() implies c2[i] != '\n' by {
                if i < cur.len() {
                    assert(c2[i] == cur[i]);
                } else {
                    assert(c2[i] == s[s.len() - 1]);
                }
            }
        }
    }
}

/// Reading a whole file without `\r\n` line endings, from its first line
/// and with a limit that reaches its last line, gives back the file's
/// content.
pub proof fn lemma_read_whole_file(full: Seq<char>, limit: usize)
    requires
        no_crlf(full),
        limit >= lines(full).len(),
    ensures
        read_window(full, 0, limit) == full,
{
    lemma_lines_acc_rebuilds(full);
    let (d, cur) = lines_acc(full);
    let ls = lines(full);
    assert(ls.subrange(0, ls.len() as int) =~= ls);
    if cur.len() > 0 {
        lemma_join_push(d, cur);
        assert(full =~= terminated_lines(d) + cur);
        assert(full.last() == cur.last());
    } else if d.len() > 0 {
        lemma_join_push(d.drop_last(), d.last());
        assert(d.drop_last().push(d.last()) =~= d);
        assert(full =~= terminated_lines(d));
        assert(terminated_lines(d) =~= terminated_lines(d.drop_last()) + d.last() + seq!['\n']);
        assert(full.last() == '\n');
        assert(join(d, seq!['\n']).push('\n') =~= full);
    } else {
        assert(full =~= Seq::<char>::empty());
    }
}

// ── Writing files ─────────────────────────────────────────────────

/// The response to a `write_file` that wrote `content`: success, and the
/// number of bytes written (the UTF-8 length of the content).
pub fn write_file_response(content: &str) -> (r: WriteFileResponse)
    ensures
        r.success,
        r.bytes_written == vstd::utf8::encode_utf8(content@).len() as usize,
{
    WriteFileResponse { success: true, bytes_written: content.len() }
}

// ── Listing directories ───────────────────────────────────────────

/// A listing entry for a directory member: its name, whether it is a
/// directory, its size (0 for a directory), and its modification time as
/// seconds since the Unix epoch where that is known.
pub fn dir_entry(name: String, is_dir: bool, len: u64, modified_secs: Option<u64>) -> (r:
    DirEntry)
    ensures
        r.name@ == name@,
        r.is_dir == is_dir,
        r.size == (if is_dir {
            0
        } else {
            len
        }),
        opt_view(r.modified_at) == match modified_secs {
            Some(secs) => Some(decimal(secs as nat)),
            None => None,
        },
{
    let size = if is_dir {
        0
    } else {
        len
    };
    let modified_at = match modified_secs {
        Some(secs) => Some(u64_to_decimal(secs)),
        None => None,
    };
    DirEntry { name, is_dir, size, modified_at }
}

/// Lexicographic order of names by code point (the order of `str::cmp`,
/// which compares UTF-8 bytes).
pub open spec fn name_le(a: Seq<char>, b: Seq<char>) -> bool
    decreases a.len(),
{
    if a.len() == 0 {
        true
    } else if b.len() == 0 {
        false
    } else if a[0] != b[0] {
        (a[0] as u32) < (b[0] as u32)
    } else {
        name_le(a.drop_first(), b.drop_first())
    }
}

/// The listing order: directories first, then by name.
pub open spec fn entry_le(a: (Seq<char>, bool, u64, Option<Seq<char>>), b: (
    Seq<char>,
    bool,
    u64,
    Option<Seq<char>>,
)) -> bool {
    (a.1 && !b.1) || (a.1 == b.1 && name_le(a.0, b.0))
}

/// The views of listing entries.
pub open spec fn entries_view(v: Seq<DirEntry>) -> Seq<(Seq<char>, bool, u64, Option<Seq<char>>)> {
    v.map_values(|e: DirEntry| e@)
}

/// Entries in listing order.
pub open spec fn listing_sorted(v: Seq<(Seq<char>, bool, u64, Option<Seq<char>>)>) -> bool {
    forall|i: int, j: int| 0 <= i < j < v.len() ==> entry_le(#[trigger] v[i], #[trigger] v[j])
}

proof fn lemma_name_le_total(a: Seq<char>, b: Seq<char>)
    ensures
        name_le(a, b) || name_le(b, a),
    decreases a.len(),
{
    if a.len() > 0 && b.len() > 0 {
        if a[0] == b[0] {
            lemma_name_le_total(a.drop_first(), b.drop_first());
        } else {
            vstd::utf8::char_u32_cast(a[0], a[0] as u32);
            vstd::utf8::char_u32_cast(b[0], b[0] as u32);
            assert((a[0] as u32) != (b[0] as u32));
        }
    }
}

proof fn lemma_name_le_transitive(a: Seq<char>, b: Seq<char>, c: Seq<char>)
    requires
        name_le(a, b),
        name_le(b, c),
    ensures
        name_le(a, c),
    decreases a.len(),
{
    if a.len() > 0 && b.len() > 0 && c.len() > 0 && a[0] == b[0] && b[0] == c[0] {
        lemma_name_le_transitive(a.drop_first(), b.drop_first(), c.drop_first());
    }
}

/// Whether `a` comes no later than `b` in the listing order.
fn entry_le_exec(a: &DirEntry, b: &DirEntry) -> (r: bool)
    ensures
        r == entry_le(a@, b@),
{
    if a.is_dir != b.is_dir {
        return a.is_dir;
    }
    let x = str_chars(a.name.as_str());
    let y = str_chars(b.name.as_str());
    let mut i: usize = 0;
    assert(x@.skip(0) =~= x@ && y@.skip(0) =~= y@);
    while i < x.len() && i < y.len() && x[i] == y[i]
        invariant
            i <= x@.len(),
            i <= y@.len(),
            x@ == a.name@,
            y@ == b.name@,
            name_le(x@, y@) == name_le(x@.skip(i as int), y@.skip(i as int)),
        decreases x@.len() - i,
    {
        assert(x@.skip(i as int).drop_first() =~= x@.skip(i + 1));
        assert(y@.skip(i as int).drop_first() =~= y@.skip(i + 1));
        i = i + 1;
    }
    if i == x.len() {
        true
    } else if i == y.len() {
        false
    } else {
        assert(x@.skip(i as int)[0] == x@[i as int] && y@.skip(i as int)[0] == y@[i as int]);
        (x[i] as u32) < (y[i] as u32)
    }
}

/// Where `e` goes in `v`: after the leading entries that come no later
/// than it.
pub open spec fn insert_pos(v: Seq<(Seq<char>, bool, u64, Option<Seq<char>>)>, e: (
    Seq<char>,
    bool,
    u64,
    Option<Seq<char>>,
)) -> nat
    decreases v.len(),
{
    if v.len() == 0 || !entry_le(v[0], e) {
        0
    } else {
        1 + insert_pos(v.drop_first(), e)
    }
}

/// The entries in listing order, as a stable sort leaves them: each entry
/// in turn goes after those already placed that come no later than it.
pub open spec fn listing_of(v: Seq<(Seq<char>, bool, u64, Option<Seq<char>>)>) -> Seq<
    (Seq<char>, bool, u64, Option<Seq<char>>),
>
    decreases v.len(),
{
    if v.len() == 0 {
        seq![]
    } else {
        let placed = listing_of(v.drop_last());
        placed.insert(insert_pos(placed, v.last()) as int, v.last())
    }
}

/// The first `pos` entries of `v` come no later than `e`, and the next one,
/// if any, comes later: `e` goes at `pos`.
proof fn lemma_insert_pos(
    v: Seq<(Seq<char>, bool, u64, Option<Seq<char>>)>,
    e: (Seq<char>, bool, u64, Option<Seq<char>>),
    pos: nat,
)
    requires
        pos <= v.len(),
        forall|m: int| 0 <= m < pos ==> entry_le(#[trigger] v[m], e),
        pos < v.len() ==> !entry_le(v[pos as int], e),
    ensures
        insert_pos(v, e) == pos,
    decreases pos,
{
    if pos > 0 {
        let w = v.drop_first();
        assert forall|m: int| 0 <= m < pos - 1 implies entry_le(#[trigger] w[m], e) by {
            assert(w[m] == v[m + 1]);
        }
        if pos < v.len() {
            assert(w[pos - 1] == v[pos as int]);
        }
        assert(entry_le(v[0], e));
        lemma_insert_pos(w, e, (pos - 1) as nat);
    }
}

/// Sorts entries into listing order: directories first, then by name. The
/// sort is stable: entries that order equally keep their order.
pub fn sort_entries(entries: Vec<DirEntry>) -> (r: Vec<DirEntry>)
    ensures
        entries_view(r@) == listing_of(entries_view(entries@)),
        listing_sorted(entries_view(r@)),
        entries_view(r@).to_multiset() == entries_view(entries@).to_multiset(),
{
    broadcast use vstd::seq_lib::group_to_multiset_ensures;

    let ghost orig = entries_view(entries@);
    let mut rest = entries;
    let mut sorted: Vec<DirEntry> = Vec::new();
    let mut k: usize = 0;
    let n = rest.len();
    while rest.len() > 0
        invariant
            k + rest@.len() == n,
            n == orig.len(),
            entries_view(rest@) == orig.skip(k as int),
            entries_view(sorted@).to_multiset() == orig.take(k as int).to_multiset(),
            entries_view(sorted@) == listing_of(orig.take(k as int)),
            listing_sorted(entries_view(sorted@)),
        decreases rest@.len(),
    {
        let ghost old_rest = rest@;
        assert(entries_view(old_rest)[0] == orig[k as int]);
        let e = rest.remove(0);
        assert forall|m: int| 0 <= m < rest@.len() implies #[trigger] entries_view(rest@)[m]
            == orig.skip(k + 1)[m] by {
            assert(rest@[m] == old_rest[m + 1]);
            assert(entries_view(old_rest)[m + 1] == orig.skip(k as int)[m + 1]);
        }
        assert(entries_view(rest@) =~= orig.skip(k + 1));
        assert(e@ == orig[k as int]);
        let mut pos: usize = 0;
        while pos < sorted.len() && entry_le_exec(&sorted[pos], &e)
            invariant
                pos <= sorted@.len(),
                forall|m: int| 0 <= m < pos ==> entry_le(#[trigger] sorted@[m]@, e@),
            decreases sorted@.len() - pos,
        {
            pos = pos + 1;
        }
        let ghost before = entries_view(sorted@);
        proof {
            assert forall|m: int| 0 <= m < pos implies entry_le(#[trigger] before[m], e@) by {
                assert(before[m] == sorted@[m]@);
            }
            lemma_insert_pos(before, e@, pos as nat);
            assert(orig.take(k + 1).drop_last() =~= orig.take(k as int));
            assert(orig.take(k + 1).last() == e@);
            if pos < sorted@.len() {
                assert(!entry_le(before[pos as int], e@));
                lemma_name_le_total(before[pos as int].0, e@.0);
                assert(entry_le(e@, before[pos as int]));
                assert forall|m: int| pos <= m < before.len() implies entry_le(
                    e@,
                    #[trigger] before[m],
                ) by {
                    if m > pos {
                        assert(entry_le(before[pos as int], before[m]));
                        if e@.1 == before[pos as int].1 && before[pos as int].1 == before[m].1 {
                            lemma_name_le_transitive(e@.0, before[pos as int].0, before[m].0);
                        }
                    }
                }
            }
        }
        sorted.insert(pos, e);
        assert(entries_view(sorted@) =~= before.insert(pos as int, e@));
        proof {
            let after = entries_view(sorted@);
            assert forall|i: int, j: int| 0 <= i < j < after.len() implies entry_le(
                #[trigger] after[i],
                #[trigger] after[j],
            ) by {
                if j < pos {
                    assert(after[i] == before[i] && after[j] == before[j]);
                } else if j == pos {
                    assert(after[i] == before[i]);
                    assert(entry_le(sorted@[i]@, e@));
                } else if i == pos {
                    assert(after[j] == before[j - 1]);
                } else if i < pos {
                    assert(after[i] == before[i] && after[j] == before[j - 1]);
                } else {
                    assert(after[i] == before[i - 1] && after[j] == before[j - 1]);
                }
            }
            assert(orig.take(k + 1) =~= orig.take(k as int).push(e@));
            vstd::seq_lib::to_multiset_insert(before, pos as int, e@);
            vstd::seq_lib::to_multiset_build(orig.take(k as int), e@);
            assert(before.insert(pos as int, e@).to_multiset() == before.to_multiset().insert(e@));
            assert(orig.take(k as int).push(e@).to_multiset() == orig.take(
                k as int,
            ).to_multiset().insert(e@));
        }
        k = k + 1;
    }
    assert(orig.take(n as int) =~= orig);
    sorted
}

/// The response to `list_dir`: the entries in listing order.
pub fn list_dir_response(entries: Vec<DirEntry>) -> (r: ListDirResponse)
    ensures
        entries_view(r.entries@) == listing_of(entries_view(entries@)),
        listing_sorted(entries_view(r.entries@)),
        entries_view(r.entries@).to_multiset() == entries_view(entries@).to_multiset(),
{
    ListDirResponse { entries: sort_entries(entries) }
}


/// Names are ordered lexicographically by code point: where two names first
/// differ, the one with the smaller character comes first.
pub proof fn lemma_name_le_first_difference(a: Seq<char>, b: Seq<char>, k: nat)
    requires
        k < a.len(),
        k < b.len(),
        a.take(k as int) == b.take(k as int),
        (a[k as int] as u32) < (b[k as int] as u32),
    ensures
        name_le(a, b),
        !name_le(b, a),
    decreases k,
{
    if k == 0 {
        assert(a[0] != b[0]);
    } else {
        assert(a.take(k as int)[0] == a[0]);
        assert(b.take(k as int)[0] == b[0]);
        assert(a[0] == b[0]);
        let a1 = a.drop_first();
        let b1 = b.drop_first();
        assert(a1.take(k - 1) =~= a.take(k as int).drop_first());
        assert(b1.take(k - 1) =~= b.take(k as int).drop_first());
        assert(a1[k - 1] == a[k as int] && b1[k - 1] == b[k as int]);
        lemma_name_le_first_difference(a1, b1, (k - 1) as nat);
    }
}

/// A name comes before every longer name it is a prefix of.
pub proof fn lemma_name_le_prefix(a: Seq<char>, b: Seq<char>)
    requires
        a.len() <= b.len(),
        b.take(a.len() as int) == a,
    ensures
        name_le(a, b),
        a.len() < b.len() ==> !name_le(b, a),
    decreases a.len(),
{
    if a.len() > 0 {
        assert(b.take(a.len() as int)[0] == b[0]);
        let a1 = a.drop_first();
        let b1 = b.drop_first();
        assert(b1.take(a1.len() as int) =~= b.take(a.len() as int).drop_first());
        lemma_name_le_prefix(a1, b1);
    }
}

/// In a listing, directories come before files.
pub proof fn lemma_listing_directories_first(
    v: Seq<(Seq<char>, bool, u64, Option<Seq<char>>)>,
    i: int,
    j: int,
)
    requires
        listing_sorted(v),
        0 <= i < j < v.len(),
        v[j].1,
    ensures
        v[i].1,
{
    assert(entry_le(v[i], v[j]));
}

/// In a listing, entries of the same kind follow the lexicographic order of
/// their names: where two names first differ (at `k`), the earlier entry's
/// character is no larger, and no later name is a proper prefix of an
/// earlier one.
pub proof fn lemma_listing_names_in_order(
    v: Seq<(Seq<char>, bool, u64, Option<Seq<char>>)>,
    i: int,
    j: int,
    k: nat,
)
    requires
        listing_sorted(v),
        0 <= i < j < v.len(),
        v[i].1 == v[j].1,
    ensures
        k < v[i].0.len() && k < v[j].0.len() && v[i].0.take(k as int) == v[j].0.take(k as int)
            ==> (v[i].0[k as int] as u32) <= (v[j].0[k as int] as u32),
        v[j].0.len() < v[i].0.len() ==> v[i].0.take(v[j].0.len() as int) != v[j].0,
{
    let a = v[i].0;
    let b = v[j].0;
    assert(entry_le(v[i], v[j]));
    assert(name_le(a, b));
    if k < a.len() && k < b.len() && a.take(k as int) == b.take(k as int) && (b[k as int] as u32)
        < (a[k as int] as u32) {
        assert(b.take(k as int) == a.take(k as int));
        lemma_name_le_first_difference(b, a, k);
    }
    if b.len() < a.len() && a.take(b.len() as int) == b {
        lemma_name_le_prefix(b, a);
    }
}
} // verus!
