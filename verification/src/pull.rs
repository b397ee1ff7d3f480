//! Forwards a pull to `buildah pull`, providing a consistent command line.
use vstd::prelude::*;

use crate::commands::{flag_for, new_command, push_arg, push_args, push_flag_for};
use crate::push::{push_switch, push_tls_flag, switch, tls_flag};
use crate::text::{opt_text, texts};

verus! {

/// Arguments for the pull command.
#[derive(Debug)]
pub struct PullArgs {
    /// Image to pull (name or reference).
    pub image: String,
    /// Whether the certificate of the source registry is verified.
    pub tls_verify: Option<bool>,
    /// Path to an authentication file.
    pub authfile: Option<String>,
    /// Pull all tagged images in the repository.
    pub all_tags: bool,
    /// Extra arguments passed directly to buildah pull.
    pub extra: Vec<String>,
}

/// The command of a pull.
pub open spec fn pull_words(args: PullArgs) -> Seq<Seq<char>> {
    seq!["pull"@] + tls_flag(args.tls_verify) + flag_for("--authfile"@, opt_text(args.authfile))
        + switch("--all-tags"@, args.all_tags) + texts(args.extra@) + seq![args.image@]
}

/// The command that pulls an image from a registry.
pub fn pull(args: &PullArgs) -> (r: Vec<String>)
    ensures
        texts(r@) == pull_words(*args),
{
    let mut v = new_command("pull");
    push_tls_flag(&mut v, args.tls_verify);
    push_flag_for(&mut v, "--authfile", &args.authfile);
    push_switch(&mut v, "--all-tags", args.all_tags);
    push_args(&mut v, &args.extra);
    push_arg(&mut v, args.image.as_str());
    proof {
        assert(texts(v@) =~= pull_words(*args));
    }
    v
}

/// A pull without options names the image only. Each option that is given adds its words, in
/// front of what is handed on and of the image.
pub proof fn law_pull_command(args: PullArgs)
    ensures
        ({
            let tls = match args.tls_verify {
                Some(on) => seq![
                    "--tls-verify"@,
                    if on {
                        "true"@
                    } else {
                        "false"@
                    },
                ],
                None => seq![],
            };
            let auth = match args.authfile {
                Some(f) => seq!["--authfile"@, f@],
                None => seq![],
            };
            let all: Seq<Seq<char>> = if args.all_tags {
                seq!["--all-tags"@]
            } else {
                seq![]
            };
            pull_words(args) == seq!["pull"@] + tls + auth + all + texts(args.extra@) + seq![
                args.image@,
            ]
        }),
{
}

} // verus!
