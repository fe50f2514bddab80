//! The command-line arguments, as plain values.
use vstd::prelude::*;

verus! {

/// The whole command line.
#[derive(Debug)]
pub struct Cli {
    pub images_dir: String,
    pub command: Command,
}

/// The subcommands.
#[derive(Debug)]
pub enum Command {
    List(ListArgs),
    Matrix(MatrixArgs),
    Render(RenderArgs),
    Tool(ToolArgs),
    Build(BuildArgs),
    Manifest(ManifestArgs),
    Release(ReleaseArgs),
    Verify(VerifyArgs),
}

/// `list`: print the targets.
#[derive(Debug)]
pub struct ListArgs {
    pub json: bool,
    pub owner: Option<String>,
}

/// `matrix`: print the CI build matrix.
#[derive(Debug)]
pub struct MatrixArgs {
    pub pretty: bool,
    pub all: bool,
    pub per_platform: bool,
}

/// `render`: generate Dockerfiles.
#[derive(Debug)]
pub struct RenderArgs {
    pub image_id: Option<String>,
    pub check: bool,
    pub stdout: bool,
}

/// `tool`: inspect and update bundled tools.
#[derive(Debug)]
pub struct ToolArgs {
    pub command: ToolCommand,
}

/// The `tool` subcommands.
#[derive(Debug)]
pub enum ToolCommand {
    List(ToolListArgs),
    Outdated(ToolOutdatedArgs),
    Update(ToolUpdateArgs),
}

/// `tool list`.
#[derive(Debug)]
pub struct ToolListArgs {
    pub json: bool,
}

/// `tool outdated`.
#[derive(Debug)]
pub struct ToolOutdatedArgs {
    pub names: Vec<String>,
    pub json: bool,
    pub check: bool,
    pub allow_major: bool,
}

/// `tool update`.
#[derive(Debug)]
pub struct ToolUpdateArgs {
    pub names: Vec<String>,
    pub dry_run: bool,
    pub allow_major: bool,
}

/// `build`: build one image locally.
#[derive(Debug)]
pub struct BuildArgs {
    pub image_id: String,
    pub owner: Option<String>,
    pub platform: Option<String>,
    pub dry_run: bool,
}

/// `release`: build and push images.
#[derive(Debug)]
pub struct ReleaseArgs {
    pub image_id: Option<String>,
    pub owner: String,
    pub platform: Option<String>,
    pub tag_suffix: Option<String>,
    pub dry_run: bool,
}

/// `manifest`: join per-platform images under multi-platform tags.
#[derive(Debug)]
pub struct ManifestArgs {
    pub image_id: Option<String>,
    pub owner: String,
    pub dry_run: bool,
}

/// `verify`: validate the catalog and check rendered Dockerfiles.
#[derive(Debug)]
pub struct VerifyArgs {}

} // verus!
