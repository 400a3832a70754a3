use vstd::prelude::*;
use async_process::unix::CommandExt;

verus! {

#[verifier::external_type_specification]
#[verifier::external_body]
pub struct ExUser(users::User);

/// What a finished process reported: whether it exited successfully, its exit
/// code where one exists, and its captured output.
pub struct CmdOutput {
    pub success: bool,
    pub code: Option<i32>,
    pub stdout: Vec<u8>,
    pub stderr: Vec<u8>,
}

/// The view of a process report.
pub struct CmdOutputView {
    pub success: bool,
    pub code: Option<i32>,
    pub stdout: Seq<u8>,
    pub stderr: Seq<u8>,
}

impl View for CmdOutput {
    type V = CmdOutputView;

    open spec fn view(&self) -> CmdOutputView {
        CmdOutputView {
            success: self.success,
            code: self.code,
            stdout: self.stdout@,
            stderr: self.stderr@,
        }
    }
}

/// Relies on async_process::Command, driven to completion on a tokio
/// current-thread runtime: runs the command line in the directory with both
/// output streams captured. What comes back depends on the machine, so
/// nothing is assumed of the outcome.
#[verifier::external_body]
pub(crate) fn spawn_command(argv: &Vec<String>, dir: &str) -> (r: Result<CmdOutput, String>)
    requires
        argv@.len() >= 1,
{
    let rt = tokio::runtime::Builder::new_current_thread().build().map_err(|e| e.to_string())?;
    let mut cmd = async_process::Command::new(&argv[0]);
    cmd.args(&argv[1..]).current_dir(dir).stdout(async_process::Stdio::piped()).stderr(
        async_process::Stdio::piped(),
    );
    let out = rt.block_on(cmd.output()).map_err(|e| e.to_string())?;
    Ok(
        CmdOutput {
            success: out.status.success(),
            code: out.status.code(),
            stdout: out.stdout,
            stderr: out.stderr,
        },
    )
}

/// Relies on async_process::Command as above, with the child's user and group
/// set from the given identity (async_process::unix::CommandExt::uid and
/// gid): a failure to take that identity surfaces as a spawn error. Nothing
/// is assumed of the outcome.
#[verifier::external_body]
pub(crate) fn spawn_command_as_user(argv: &Vec<String>, dir: &str, user: &users::User) -> (r:
    Result<CmdOutput, String>)
    requires
        argv@.len() >= 1,
{
    let rt = tokio::runtime::Builder::new_current_thread().build().map_err(|e| e.to_string())?;
    let mut cmd = async_process::Command::new(&argv[0]);
    cmd.args(&argv[1..]).current_dir(dir).uid(user.uid()).gid(user.primary_group_id()).stdout(
        async_process::Stdio::piped(),
    ).stderr(async_process::Stdio::piped());
    let out = rt.block_on(cmd.output()).map_err(|e| e.to_string())?;
    Ok(
        CmdOutput {
            success: out.status.success(),
            code: out.status.code(),
            stdout: out.stdout,
            stderr: out.stderr,
        },
    )
}

} // verus!
