//! What holds of paths and of what is printed in an execution environment.

use vstd::prelude::*;

use crate::command_run::{CommandReply, CommandRequest, CommandRun, OutputStream};
use crate::execution_env::{
    applied_parts, bash_config, comes_to, first_found, folded, folded_path, hex_char, hex_digit, hex_text, joined_path, joined_paths,
    object_name, percent_decoded, plain_path, resolved_path, shell_variables, url_path, url_text, variables,
    CommandEndView, CommandTransport, ShellConfig,
};
use crate::harness_types::{ExecutionError, ExecutionErrorCode, ShellExecResult};
use crate::text::{begins_with, first_match, split, texts, trim};
use crate::text_laws::law_separators_part_a_text;
use crate::utils::shell_output::{is_printable, sanitized};

verus! {

// ---------------------------------------------------------------------------
// Joining
// ---------------------------------------------------------------------------

/// A path that begins with a slash stands alone; another one stands behind its
/// base, with one slash between them.
pub proof fn law_paths_are_joined_by_a_slash(base: Seq<char>, path: Seq<char>)
    ensures
        path.len() > 0 && path[0] == '/' ==> joined_path(base, path) == path,
        joined_path(Seq::empty(), path) == path,
        base.len() > 0 && base.last() != '/' && (path.len() == 0 || path[0] != '/')
            ==> joined_path(base, path) == base + seq!['/'] + path,
        base.len() > 0 && base.last() == '/' && (path.len() == 0 || path[0] != '/')
            ==> joined_path(base, path) == base + path,
{
    reveal_strlit("/");
    if path.len() > 0 {
        assert(path.subrange(0, 1)[0] == path[0]);
        if path[0] == '/' {
            assert(path.subrange(0, 1) =~= "/"@);
        }
    }
    assert(base + "/"@ + path =~= base + seq!['/'] + path);
}

/// Several paths are joined one after the other.
pub proof fn law_paths_are_joined_in_turn(parts: Seq<Seq<char>>, part: Seq<char>)
    ensures
        joined_paths(parts.push(part)) == joined_path(joined_paths(parts), part),
        joined_paths(Seq::empty()).len() == 0,
{
    assert(parts.push(part).drop_last() =~= parts);
}

// ---------------------------------------------------------------------------
// Parts that cancel out
// ---------------------------------------------------------------------------

/// Whether a part of a path names something.
pub open spec fn names_something(part: Seq<char>) -> bool {
    part.len() > 0 && part != "."@ && part != ".."@ && !part.contains('/')
}

/// A part that names something is kept behind those before it, a dot and an
/// empty part change nothing, and two dots take back the part before them.
pub proof fn law_two_dots_take_back_a_part(parts: Seq<Seq<char>>, part: Seq<char>)
    requires
        names_something(part),
    ensures
        applied_parts(parts.push(part)) == applied_parts(parts).push(part),
        applied_parts(parts.push("."@)) == applied_parts(parts),
        applied_parts(parts.push(Seq::empty())) == applied_parts(parts),
        applied_parts(parts.push(part).push(".."@)) == applied_parts(parts),
        applied_parts(Seq::empty()).len() == 0,
{
    reveal_strlit(".");
    reveal_strlit("..");
    assert("."@.len() == 1 && ".."@.len() == 2);
    assert(parts.push(part).drop_last() =~= parts);
    assert(parts.push("."@).drop_last() =~= parts);
    assert(parts.push(Seq::empty()).drop_last() =~= parts);
    let longer = parts.push(part);
    assert(longer.push(".."@).drop_last() =~= longer);
    assert(applied_parts(longer).drop_last() =~= applied_parts(parts));
}

/// A path is the same when it goes into a part and back, and when it goes
/// nowhere.
pub proof fn law_detours_do_not_matter(path: Seq<char>, part: Seq<char>)
    requires
        path.len() > 0,
        names_something(part),
    ensures
        plain_path(path + seq!['/'] + part + seq!['/'] + ".."@) == plain_path(path),
        plain_path(path + seq!['/'] + "."@) == plain_path(path),
        plain_path(path + seq!['/']) == plain_path(path),
{
    reveal_strlit("..");
    reveal_strlit(".");
    reveal_strlit("/");
    let dots = ".."@;
    let dot = "."@;
    assert(!dots.contains('/'));
    assert(!dot.contains('/'));
    let parts = split(path, '/');
    law_two_dots_take_back_a_part(parts, part);
    // Into a part and back.
    law_separators_part_a_text(path, part, '/');
    law_separators_part_a_text(part, part, '/');
    let into = path + seq!['/'] + part;
    assert(split(into, '/') =~= parts.push(part));
    law_separators_part_a_text(into, dots, '/');
    law_separators_part_a_text(dots, dots, '/');
    let back = into + seq!['/'] + dots;
    assert(split(back, '/') =~= parts.push(part).push(dots));
    lemma_same_start(path, back);
    // Nowhere.
    law_separators_part_a_text(path, dot, '/');
    law_separators_part_a_text(dot, dot, '/');
    let here = path + seq!['/'] + dot;
    assert(split(here, '/') =~= parts.push(dot));
    lemma_same_start(path, here);
    let none = Seq::<char>::empty();
    law_separators_part_a_text(path, none, '/');
    law_separators_part_a_text(none, none, '/');
    let slash = path + seq!['/'];
    assert(slash + none =~= slash);
    assert(split(slash, '/') =~= parts.push(none));
    lemma_same_start(path, slash);
}

proof fn lemma_same_start(a: Seq<char>, b: Seq<char>)
    requires
        a.len() > 0,
        b.len() > 0,
        a[0] == b[0],
    ensures
        begins_with(a, "/"@) == begins_with(b, "/"@),
{
    reveal_strlit("/");
    assert(a.subrange(0, 1)[0] == a[0]);
    assert(b.subrange(0, 1)[0] == b[0]);
    if a[0] == '/' {
        assert(a.subrange(0, 1) =~= "/"@);
        assert(b.subrange(0, 1) =~= "/"@);
    }
}

/// The name of an object is the last part of its path.
pub proof fn law_the_last_part_is_the_name(dir: Seq<char>, name: Seq<char>)
    requires
        names_something(name),
    ensures
        object_name(dir + seq!['/'] + name) == name,
        object_name(name) == name,
{
    law_separators_part_a_text(dir, name, '/');
    law_separators_part_a_text(name, name, '/');
    let parts = split(dir + seq!['/'] + name, '/');
    assert(parts.last() == name);
    assert(split(name, '/').last() == name);
}

// ---------------------------------------------------------------------------
// Resolving
// ---------------------------------------------------------------------------

/// A tilde stands for the home directory, alone or with a path behind it, and a
/// path that is no such one and no address of a file stays.
pub proof fn law_a_tilde_stands_for_home(
    cwd: Seq<char>,
    home: Seq<char>,
    rest: Seq<char>,
    path: Seq<char>,
)
    requires
        path.len() == 0 || path[0] != '~',
    ensures
        resolved_path(cwd, "~"@, home) == plain_path(joined_path(cwd, home)),
        resolved_path(cwd, seq!['~', '/'] + rest, home) == plain_path(
            joined_path(cwd, joined_path(home, rest)),
        ),
        url_path(path) is None ==> resolved_path(cwd, path, home) == plain_path(
            joined_path(cwd, path),
        ),
        url_text(path) matches Some(text) ==> resolved_path(cwd, path, home) == plain_path(
            joined_path(cwd, text),
        ),
{
    reveal_strlit("~");
    reveal_strlit("~/");
    reveal_strlit("~\\");
    let home_path = seq!['~', '/'] + rest;
    assert(home_path.subrange(0, 2) =~= "~/"@);
    assert(home_path.skip(2) =~= rest);
    assert(home_path.len() >= 2);
    assert("~"@.len() == 1);
    if path.len() > 0 {
        assert("~"@[0] == '~');
        if begins_with(path, "~/"@) {
            assert(path.subrange(0, 2)[0] == path[0]);
        }
        if begins_with(path, "~\\"@) {
            assert(path.subrange(0, 2)[0] == path[0]);
        }
    }
}

/// The address of a file on this machine holds its path, with the name of the
/// machine before it or without.
pub proof fn law_addresses_hold_their_path(path: Seq<char>)
    requires
        path.len() > 0,
        path[0] == '/',
    ensures
        url_path("file://"@ + path) == Some(path),
        url_path("file://"@ + "localhost"@ + path) == Some(path),
        url_path(path) is None,
{
    reveal_strlit("file://");
    reveal_strlit("/");
    reveal_strlit("localhost");
    reveal_strlit("localhost/");
    let plain = "file://"@ + path;
    assert(plain.subrange(0, 7) =~= "file://"@);
    assert(plain.skip(7) =~= path);
    assert(path.subrange(0, 1) =~= "/"@);
    let named = "file://"@ + "localhost"@ + path;
    assert(named.subrange(0, 7) =~= "file://"@);
    let rest = "localhost"@ + path;
    assert(named.skip(7) =~= rest);
    assert(rest.subrange(0, 1)[0] == 'l');
    assert(!begins_with(rest, "/"@)) by {
        if begins_with(rest, "/"@) {
            assert(rest.subrange(0, 1)[0] == '/');
        }
    }
    assert(rest.subrange(0, 10) =~= "localhost/"@);
    assert(rest.skip(9) =~= path);
    if begins_with(path, "file://"@) {
        assert(path.subrange(0, 7)[0] == path[0]);
    }
}

/// A percent sign and two digits stand for the byte that they spell, and other
/// bytes for themselves.
pub proof fn law_percent_signs_spell_bytes(a: u8, b: u8, rest: Seq<u8>, c: u8)
    requires
        a != 0x2b,
        c != 0x25,
    ensures
        hex_digit(a) matches Some(x) ==> (hex_digit(b) matches Some(y) ==> percent_decoded(
            seq![0x25u8, a, b] + rest,
        ) == seq![(16 * x + y) as u8] + percent_decoded(rest)),
        percent_decoded(seq![c] + rest) == seq![c] + percent_decoded(rest),
        percent_decoded(Seq::empty()).len() == 0,
{
    let coded = seq![0x25u8, a, b] + rest;
    assert(coded.skip(3) =~= rest);
    assert((seq![c] + rest).skip(1) =~= rest);
}

/// A byte is read back from the digits that it is written in.
pub proof fn law_bytes_are_read_back_from_their_digits(bytes: Seq<u8>, i: int)
    requires
        0 <= i < bytes.len(),
    ensures
        hex_text(bytes).len() == 2 * bytes.len(),
        hex_digit(hex_text(bytes)[2 * i] as u8) matches Some(high) && hex_digit(
            hex_text(bytes)[2 * i + 1] as u8,
        ) matches Some(low) && 16 * high + low == bytes[i],
{
    let b = bytes[i];
    assert((2 * i) / 2 == i && (2 * i) % 2 == 0);
    assert((2 * i + 1) / 2 == i && (2 * i + 1) % 2 == 1);
    lemma_hex_char((b / 16) as u8);
    lemma_hex_char((b % 16) as u8);
}

proof fn lemma_hex_char(n: u8)
    requires
        n < 16,
    ensures
        hex_digit(hex_char(n) as u8) == Some(n),
{
}

// ---------------------------------------------------------------------------
// What is printed
// ---------------------------------------------------------------------------

/// What a command prints is kept but for characters that control a terminal and
/// for marks of annotations.
pub proof fn law_only_control_characters_are_dropped(text: Seq<char>)
    ensures
        sanitized(text) == text.filter(
            |c: char|
                c == '\t' || c == '\n' || c == '\r' || (c >= ' ' && !('\u{fff9}' <= c
                    <= '\u{fffb}')),
        ),
    decreases text.len(),
{
    reveal(Seq::filter);
    let p = |c: char|
        c == '\t' || c == '\n' || c == '\r' || (c >= ' ' && !('\u{fff9}' <= c <= '\u{fffb}'));
    if text.len() > 0 {
        law_only_control_characters_are_dropped(text.drop_last());
        assert(is_printable(text.last()) == p(text.last()));
        assert(text.drop_last().filter(p) == sanitized(text.drop_last()));
    }
    assert(sanitized(text) =~= text.filter(p));
}

// ---------------------------------------------------------------------------
// Commands
// ---------------------------------------------------------------------------

/// What is spawned is the command, in its directory and with its environment, by
/// the shell that was found: behind the arguments of the shell, or on its input
/// where the shell reads it there.
pub proof fn law_commands_are_spawned_as_asked_for(
    a: CommandRun,
    b: CommandRun,
    c: CommandRun,
    config: ShellConfig,
    look: CommandRequest,
    spawn: CommandRequest,
)
    requires
        a.stage is FindingShell,
        a.leads_to(CommandReply::Shell(Ok(config)), b, look),
        b.leads_to(CommandReply::Directory(true), c, spawn),
    ensures
        look matches CommandRequest::FindDirectory { path } && path@ == a.directory@,
        spawn matches CommandRequest::Spawn { plan, directory, env } && {
            &&& plan.program@ == config.shell@
            &&& directory@ == a.directory@
            &&& env@ == a.env@
            &&& config.command_transport == Some(CommandTransport::Stdin) ==> texts(plan.args@)
                == texts(config.args@) && (plan.input matches Some(text) && text@ == a.command@)
            &&& config.command_transport != Some(CommandTransport::Stdin) ==> plan.input is None
                && texts(plan.args@) == texts(config.args@) + seq![a.command@]
        },
{
    if let CommandRequest::Spawn { plan, .. } = spawn {
        if config.command_transport != Some(CommandTransport::Stdin) {
            assert(texts(plan.args@) =~= texts(config.args@) + seq![a.command@]);
        }
    }
}

/// Output is delivered as it completes characters, and what is delivered is what
/// the stream gains. A stream whose output is refused makes the command end with
/// the reason.
pub proof fn law_output_is_delivered_as_it_comes(
    a: CommandRun,
    b: CommandRun,
    c: CommandRun,
    d: CommandRun,
    stream: OutputStream,
    bytes: Vec<u8>,
    reason: String,
    status: Result<Option<i32>, String>,
    aborted: bool,
    deliver: CommandRequest,
    kill: CommandRequest,
    end: CommandRequest,
)
    requires
        a.stage is Running,
        a.leads_to(CommandReply::Output { stream, bytes }, b, deliver),
        b.leads_to(CommandReply::Delivered(Err(reason)), c, kill),
        c.leads_to(CommandReply::Exited { status, aborted }, d, end),
    ensures
        deliver matches CommandRequest::Deliver { stream: to, text } && to == stream && b.stream(
            stream,
        ).text == a.stream(stream).text + text@,
        kill is Kill,
        end matches CommandRequest::Finish { result: Err(e) } && e.code
            == ExecutionErrorCode::CallbackError && e.message@ == reason@,
{
}

/// A command succeeds when its output was not refused, it did not run out of
/// time, it was not called off and it ended on its own: then its exit code is
/// told, and zero where it has none. Otherwise the first of these is the error.
pub proof fn law_how_commands_end(
    end: CommandEndView,
    result: Result<ShellExecResult, ExecutionError>,
)
    requires
        comes_to(end, result),
    ensures
        result is Ok <==> end.callback_error is None && end.timed_out is None && !end.aborted
            && end.status is Ok,
        result matches Ok(found) ==> found.stdout@ == end.stdout && found.stderr@ == end.stderr && (
        end.status matches Ok(code) && match code {
            Some(n) => found.exit_code == n,
            None => found.exit_code == 0,
        }),
        result matches Err(e) ==> match (end.callback_error, end.timed_out, end.aborted) {
            (Some(message), _, _) => e.code == ExecutionErrorCode::CallbackError && e.message@
                == message,
            (None, Some(limit), _) => e.code == ExecutionErrorCode::Timeout && e.message@
                == "timeout:"@ + limit,
            (None, None, true) => e.code == ExecutionErrorCode::Aborted,
            (None, None, false) => e.code == ExecutionErrorCode::SpawnError,
        },
{
}

// ---------------------------------------------------------------------------
// Shells and variables
// ---------------------------------------------------------------------------

/// Whether two characters are the same but for the case of letters and for the
/// direction of slashes.
pub open spec fn alike(c: char, d: char) -> bool {
    ||| c == d
    ||| c == '/' && d == '\\'
    ||| 'A' <= c <= 'Z' && 'a' <= d <= 'z' && c as int + 32 == d as int
}

/// A bash takes the command as an argument, but that of an early Windows
/// Subsystem for Linux reads it from its input. Its path is known whatever the
/// case of its letters and the direction of its slashes.
pub proof fn law_early_shells_read_their_input(path: Seq<char>)
    ensures
        bash_config(path).shell == path,
        bash_config(path).command_transport is None <==> bash_config(path).args == seq!["-c"@],
        bash_config(path).command_transport == Some(CommandTransport::Stdin)
            <==> bash_config(path).args == seq!["-s"@],
        bash_config(path).command_transport is Some ==> exists|known: Seq<char>|
            (known == "c:\\windows\\system32\\bash.exe"@ || known
                == "c:\\windows\\sysnative\\bash.exe"@) && #[trigger] known.len() == path.len()
                && forall|i: int| 0 <= i < path.len() ==> alike(#[trigger] path[i], known[i]),
{
    reveal_strlit("-c");
    reveal_strlit("-s");
    assert("-c"@[1] != "-s"@[1]);
    assert(seq!["-c"@][0] != seq!["-s"@][0]);
    if bash_config(path).command_transport is Some {
        let known = folded_path(path);
        assert(known.len() == path.len());
        assert forall|i: int| 0 <= i < path.len() implies alike(#[trigger] path[i], known[i]) by {
            assert(known[i] == folded(path[i]));
        }
    }
}

/// Every spelling of a known path is taken for that path.
pub proof fn law_early_shells_are_known_by_any_spelling(path: Seq<char>, known: Seq<char>)
    requires
        known == "c:\\windows\\system32\\bash.exe"@ || known
            == "c:\\windows\\sysnative\\bash.exe"@,
        known.len() == path.len(),
        forall|i: int| 0 <= i < path.len() ==> alike(#[trigger] path[i], known[i]),
    ensures
        bash_config(path).command_transport == Some(CommandTransport::Stdin),
{
    reveal_strlit("c:\\windows\\system32\\bash.exe");
    reveal_strlit("c:\\windows\\sysnative\\bash.exe");
    assert forall|i: int| 0 <= i < path.len() implies folded_path(path)[i] == known[i] by {
        assert(alike(path[i], known[i]));
        assert(known[i] != '/' && !('A' <= known[i] <= 'Z'));
    }
    assert(folded_path(path) =~= known);
}

/// A search that failed or printed nothing found no shell. What is found is a
/// line of what was printed, without the space around it.
pub proof fn law_searches_find_the_first_shell(output: Seq<char>, exit_code: Option<i32>)
    ensures
        exit_code != Some(0i32) ==> first_found(output, exit_code) is None,
        first_found(output, exit_code) matches Some(shell) ==> shell.len() > 0,
        exit_code == Some(0i32) && first_match(trim(output), "\r\n"@, 0) is None ==> (
        first_found(output, exit_code) == if trim(trim(output)).len() > 0 && output.len() > 0 {
            Some(trim(trim(output)))
        } else {
            None
        }),
        first_match(trim(output), "\r\n"@, 0) matches Some(k) ==> (first_found(
            output,
            exit_code,
        ) matches Some(shell) ==> shell == trim(trim(output).take(k))),
{
}

/// A variable that is given later counts, and the others stay.
pub proof fn law_later_variables_count(
    pairs: Seq<(String, String)>,
    name: String,
    value: String,
    other: Seq<char>,
)
    ensures
        variables(Seq::empty()).dom() == Set::<Seq<char>>::empty(),
        variables(pairs.push((name, value))).dom().contains(name@),
        variables(pairs.push((name, value)))[name@] == value@,
        other != name@ ==> {
            &&& variables(pairs.push((name, value))).dom().contains(other) <==> variables(
                pairs,
            ).dom().contains(other)
            &&& variables(pairs).dom().contains(other) ==> variables(
                pairs.push((name, value)),
            )[other] == variables(pairs)[other]
        },
{
    assert(pairs.push((name, value)).drop_last() =~= pairs);
    assert(pairs.push((name, value)).last() == (name, value));
}

/// A command sees the variables that are given with it, then those of its shell,
/// then those that are inherited. Where nothing is inherited it sees only the
/// first.
pub proof fn law_what_variables_a_command_sees(
    process: Map<Seq<char>, Seq<char>>,
    base: Map<Seq<char>, Seq<char>>,
    extra: Map<Seq<char>, Seq<char>>,
    name: Seq<char>,
)
    ensures
        shell_variables(process, base, extra, false) == extra,
        ({
            let all = shell_variables(process, base, extra, true);
            &&& all.dom().contains(name) <==> extra.dom().contains(name) || base.dom().contains(
                name,
            ) || process.dom().contains(name)
            &&& extra.dom().contains(name) ==> all[name] == extra[name]
            &&& !extra.dom().contains(name) && base.dom().contains(name) ==> all[name]
                == base[name]
            &&& !extra.dom().contains(name) && !base.dom().contains(name)
                && process.dom().contains(name) ==> all[name] == process[name]
        }),
{
}

} // verus!
