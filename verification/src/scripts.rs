//! The scripts that start supervisors outside the process tree on Windows.
use vstd::prelude::*;
use crate::supervise::SUPERVISOR_EPOCH;
use crate::text::{dec, parse_i32, parsed_i32, push_dec, replace_all, replace_str, trim_str, trimmed};

verus! {

/// A batch line that sets a variable.
pub open spec fn set_line(name: Seq<char>, value: Seq<char>) -> Seq<char> {
    "set \""@ + name + "="@ + value + "\"\r\n"@
}

/// A batch line that sets a variable, where there is a value for it.
pub open spec fn set_line_if(name: Seq<char>, value: Option<&str>) -> Seq<char> {
    match value {
        Some(v) => set_line(name, v@),
        None => Seq::empty(),
    }
}

/// The batch line that asks for reports, where they are wanted.
pub open spec fn debug_line(debug: bool) -> Seq<char> {
    if debug {
        "set HVM_WGPU_DEBUG=1\r\n"@
    } else {
        Seq::empty()
    }
}

/// Each argument in quotation marks after a blank.
pub open spec fn args_text(args: Seq<String>) -> Seq<char>
    decreases args.len(),
{
    if args.len() == 0 {
        Seq::empty()
    } else {
        args_text(args.drop_last()) + " \""@ + args.last()@ + "\""@
    }
}

fn push_set_line(out: &mut String, name: &str, value: &str)
    ensures
        final(out)@ == old(out)@ + set_line(name@, value@),
{
    let mut line = "set \"".to_owned();
    line.append(name);
    line.append("=");
    line.append(value);
    line.append("\"\r\n");
    out.append(line.as_str());
}

fn push_set_line_if(out: &mut String, name: &str, value: Option<&str>)
    ensures
        final(out)@ == old(out)@ + set_line_if(name@, value),
{
    let ghost before = out@;
    match value {
        Some(v) => {
            push_set_line(out, name, v);
        },
        None => {
            proof {
                assert(before + Seq::<char>::empty() =~= before);
            }
        },
    }
}

fn push_debug_line(out: &mut String, debug: bool)
    ensures
        final(out)@ == old(out)@ + debug_line(debug),
{
    let ghost before = out@;
    if debug {
        out.append("set HVM_WGPU_DEBUG=1\r\n");
    } else {
        proof {
            assert(before + Seq::<char>::empty() =~= before);
        }
    }
}

fn push_args(out: &mut String, args: &Vec<String>)
    ensures
        final(out)@ == old(out)@ + args_text(args@),
{
    let ghost before = out@;
    let mut i: usize = 0;
    while i < args.len()
        invariant
            i <= args@.len(),
            out@ == before + args_text(args@.take(i as int)),
        decreases args@.len() - i,
    {
        out.append(" \"");
        out.append(args[i].as_str());
        out.append("\"");
        proof {
            assert(args@.take(i + 1).drop_last() =~= args@.take(i as int));
            assert(out@ =~= before + args_text(args@.take(i + 1)));
        }
        i += 1;
    }
    proof {
        assert(args@.take(i as int) =~= args@);
    }
}

/// For how many seconds a rest of so many milliseconds is: whole ones, at least
/// one.
pub open spec fn rest_seconds(ms: u64) -> int {
    if ms / 1000 > 1 {
        (ms / 1000) as int
    } else {
        1
    }
}

/// The batch file that starts supervisors one after the other, with a rest after
/// each whose share of workers is used up, and leaves the exit code of the last
/// one in `done.txt`.
pub open spec fn epoch_loop_text(
    exe: Seq<char>,
    args: Seq<String>,
    snap: Seq<char>,
    log: Seq<char>,
    debug: bool,
    recycle_ms: u64,
) -> Seq<char> {
    "@echo off\r\nsetlocal\r\n"@ + "set HVM_WGPU_SUPERVISOR=1\r\nset HVM_WGPU_WORKER=\r\n"@
        + set_line("HVM_WGPU_SNAP"@, snap) + debug_line(debug) + ":loop\r\n\""@ + exe + "\""@
        + args_text(args) + " >>\""@ + log + "\" 2>&1\r\nset EC=%ERRORLEVEL%\r\n"@
        + "if %EC%==0 (\r\n>\"%HVM_WGPU_SNAP%\\done.txt\" echo 0\r\nexit /b 0\r\n)\r\n"@
        + "if %EC%=="@ + dec(SUPERVISOR_EPOCH as nat) + " (\r\nping -n "@ + dec(
        (rest_seconds(recycle_ms) + 1) as nat,
    ) + " 127.0.0.1 >nul\r\ngoto loop\r\n)\r\n"@
        + ">\"%HVM_WGPU_SNAP%\\done.txt\" echo %EC%\r\nexit /b %EC%\r\n"@
}

/// The batch file that starts supervisors one after the other.
pub fn epoch_loop_bat(
    exe: &str,
    args: &Vec<String>,
    snap: &str,
    log: &str,
    debug: bool,
    recycle_ms: u64,
) -> (r: String)
    ensures
        r@ == epoch_loop_text(exe@, args@, snap@, log@, debug, recycle_ms),
{
    let rest_s = if recycle_ms / 1000 > 1 { recycle_ms / 1000 } else { 1 };
    let mut bat = "@echo off\r\nsetlocal\r\n".to_owned();
    bat.append("set HVM_WGPU_SUPERVISOR=1\r\nset HVM_WGPU_WORKER=\r\n");
    push_set_line(&mut bat, "HVM_WGPU_SNAP", snap);
    push_debug_line(&mut bat, debug);
    bat.append(":loop\r\n\"");
    bat.append(exe);
    bat.append("\"");
    push_args(&mut bat, args);
    bat.append(" >>\"");
    bat.append(log);
    bat.append("\" 2>&1\r\nset EC=%ERRORLEVEL%\r\n");
    bat.append("if %EC%==0 (\r\n>\"%HVM_WGPU_SNAP%\\done.txt\" echo 0\r\nexit /b 0\r\n)\r\n");
    bat.append("if %EC%==");
    push_dec(&mut bat, SUPERVISOR_EPOCH as u64);
    bat.append(" (\r\nping -n ");
    push_dec(&mut bat, rest_s + 1);
    bat.append(" 127.0.0.1 >nul\r\ngoto loop\r\n)\r\n");
    bat.append(">\"%HVM_WGPU_SNAP%\\done.txt\" echo %EC%\r\nexit /b %EC%\r\n");
    bat
}

/// The batch file that starts one supervisor with these settings and leaves its
/// exit code in the file `exit`.
pub open spec fn epoch_text(
    exe: Seq<char>,
    args: Seq<String>,
    snap: Seq<char>,
    log: Seq<char>,
    exit: Seq<char>,
    debug: bool,
    backend: Option<&str>,
    heap: Option<&str>,
    threads: Option<&str>,
    steps: Option<&str>,
) -> Seq<char> {
    "@echo off\r\n"@ + "set HVM_WGPU_SUPERVISOR=1\r\n"@ + "set HVM_WGPU_WORKER=\r\n"@ + set_line(
        "HVM_WGPU_SNAP"@,
        snap,
    ) + debug_line(debug) + set_line_if("HVM_WGPU_BACKEND"@, backend) + set_line_if(
        "HVM_WGPU_HEAP"@,
        heap,
    ) + set_line_if("HVM_WGPU_THREADS"@, threads) + set_line_if("HVM_WGPU_STEPS"@, steps) + "\""@
        + exe + "\""@ + args_text(args) + " >>\""@ + log + "\" 2>&1\r\n>\""@ + exit
        + "\" echo %ERRORLEVEL%\r\n"@
}

/// The batch file that starts one supervisor.
pub fn epoch_bat(
    exe: &str,
    args: &Vec<String>,
    snap: &str,
    log: &str,
    exit: &str,
    debug: bool,
    backend: Option<&str>,
    heap: Option<&str>,
    threads: Option<&str>,
    steps: Option<&str>,
) -> (r: String)
    ensures
        r@ == epoch_text(
            exe@,
            args@,
            snap@,
            log@,
            exit@,
            debug,
            backend,
            heap,
            threads,
            steps,
        ),
{
    let mut bat = "@echo off\r\n".to_owned();
    bat.append("set HVM_WGPU_SUPERVISOR=1\r\n");
    bat.append("set HVM_WGPU_WORKER=\r\n");
    push_set_line(&mut bat, "HVM_WGPU_SNAP", snap);
    push_debug_line(&mut bat, debug);
    push_set_line_if(&mut bat, "HVM_WGPU_BACKEND", backend);
    push_set_line_if(&mut bat, "HVM_WGPU_HEAP", heap);
    push_set_line_if(&mut bat, "HVM_WGPU_THREADS", threads);
    push_set_line_if(&mut bat, "HVM_WGPU_STEPS", steps);
    bat.append("\"");
    bat.append(exe);
    bat.append("\"");
    push_args(&mut bat, args);
    bat.append(" >>\"");
    bat.append(log);
    bat.append("\" 2>&1\r\n>\"");
    bat.append(exit);
    bat.append("\" echo %ERRORLEVEL%\r\n");
    bat
}

/// A text between single quotation marks of PowerShell: those in it are doubled.
pub open spec fn quoted(s: Seq<char>) -> Seq<char> {
    replace_all(s, "'"@, "''"@)
}

fn quote(s: &str) -> (r: String)
    ensures
        r@ == quoted(s@),
{
    proof {
        reveal_strlit("'");
    }
    replace_str(s, "'", "''")
}

/// The PowerShell script that starts the batch file `bat` and waits, for up to
/// six hours, until the file `done` is there.
pub open spec fn wait_loop_text(done: Seq<char>, bat: Seq<char>) -> Seq<char> {
    "$done = '"@ + quoted(done)
        + "'\r\n$r = Invoke-CimMethod -ClassName Win32_Process -MethodName Create -Arguments @{ CommandLine = 'cmd.exe /d /c \""@
        + quoted(bat)
        + "\"' }\r\nif ($null -eq $r -or $r.ReturnValue -ne 0) { Set-Content -Path $done -Value 90; exit 90 }\r\n$id = $r.ProcessId\r\n$deadline = (Get-Date).AddHours(6)\r\nwhile (-not (Test-Path -LiteralPath $done)) {\r\n  if ((Get-Date) -gt $deadline) { Set-Content -Path $done -Value 92; break }\r\n  if ($id -and -not (Get-Process -Id $id -ErrorAction SilentlyContinue)) {\r\n    Start-Sleep -Seconds 2\r\n    if (-not (Test-Path -LiteralPath $done)) { Set-Content -Path $done -Value 91; break }\r\n  }\r\n  Start-Sleep -Milliseconds 800\r\n}\r\n"@
}

/// The PowerShell script that waits for the supervisors.
pub fn wait_loop_ps(done: &str, bat: &str) -> (r: String)
    ensures
        r@ == wait_loop_text(done@, bat@),
{
    let done = quote(done);
    let bat = quote(bat);
    let mut ps = "$done = '".to_owned();
    ps.append(done.as_str());
    ps.append(
        "'\r\n$r = Invoke-CimMethod -ClassName Win32_Process -MethodName Create -Arguments @{ CommandLine = 'cmd.exe /d /c \"",
    );
    ps.append(bat.as_str());
    ps.append(
        "\"' }\r\nif ($null -eq $r -or $r.ReturnValue -ne 0) { Set-Content -Path $done -Value 90; exit 90 }\r\n$id = $r.ProcessId\r\n$deadline = (Get-Date).AddHours(6)\r\nwhile (-not (Test-Path -LiteralPath $done)) {\r\n  if ((Get-Date) -gt $deadline) { Set-Content -Path $done -Value 92; break }\r\n  if ($id -and -not (Get-Process -Id $id -ErrorAction SilentlyContinue)) {\r\n    Start-Sleep -Seconds 2\r\n    if (-not (Test-Path -LiteralPath $done)) { Set-Content -Path $done -Value 91; break }\r\n  }\r\n  Start-Sleep -Milliseconds 800\r\n}\r\n",
    );
    ps
}

/// The PowerShell script that starts the batch file `bat` and waits, for up to
/// two hours, until the file `exit` is there.
pub open spec fn wait_epoch_text(exit: Seq<char>, bat: Seq<char>) -> Seq<char> {
    "$exit = '"@ + quoted(exit)
        + "'\r\n$r = Invoke-CimMethod -ClassName Win32_Process -MethodName Create -Arguments @{ CommandLine = 'cmd.exe /d /c \""@
        + quoted(bat)
        + "\"' }\r\nif ($null -eq $r -or $r.ReturnValue -ne 0) { Set-Content -Path $exit -Value 90; exit 90 }\r\n$id = $r.ProcessId\r\n$deadline = (Get-Date).AddHours(2)\r\nwhile (-not (Test-Path -LiteralPath $exit)) {\r\n  if ((Get-Date) -gt $deadline) { Set-Content -Path $exit -Value 92; break }\r\n  if ($id -and -not (Get-Process -Id $id -ErrorAction SilentlyContinue)) {\r\n    Start-Sleep -Seconds 1\r\n    if (-not (Test-Path -LiteralPath $exit)) { Set-Content -Path $exit -Value 91; break }\r\n  }\r\n  Start-Sleep -Milliseconds 400\r\n}\r\n"@
}

/// The PowerShell script that waits for one supervisor.
pub fn wait_epoch_ps(exit: &str, bat: &str) -> (r: String)
    ensures
        r@ == wait_epoch_text(exit@, bat@),
{
    let exit = quote(exit);
    let bat = quote(bat);
    let mut ps = "$exit = '".to_owned();
    ps.append(exit.as_str());
    ps.append(
        "'\r\n$r = Invoke-CimMethod -ClassName Win32_Process -MethodName Create -Arguments @{ CommandLine = 'cmd.exe /d /c \"",
    );
    ps.append(bat.as_str());
    ps.append(
        "\"' }\r\nif ($null -eq $r -or $r.ReturnValue -ne 0) { Set-Content -Path $exit -Value 90; exit 90 }\r\n$id = $r.ProcessId\r\n$deadline = (Get-Date).AddHours(2)\r\nwhile (-not (Test-Path -LiteralPath $exit)) {\r\n  if ((Get-Date) -gt $deadline) { Set-Content -Path $exit -Value 92; break }\r\n  if ($id -and -not (Get-Process -Id $id -ErrorAction SilentlyContinue)) {\r\n    Start-Sleep -Seconds 1\r\n    if (-not (Test-Path -LiteralPath $exit)) { Set-Content -Path $exit -Value 91; break }\r\n  }\r\n  Start-Sleep -Milliseconds 400\r\n}\r\n",
    );
    ps
}

/// The exit code that a script left in a file with this text; nothing where there
/// is none.
pub fn exit_text(text: &str) -> (r: Option<i32>)
    ensures
        match r {
            Some(code) => parsed_i32(trimmed(text@)) == Some(code as int),
            None => parsed_i32(trimmed(text@)) is None,
        },
{
    let text = trim_str(text);
    parse_i32(text.as_str())
}

} // verus!
