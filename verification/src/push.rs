//! Forwards a push to `buildah push`, providing a consistent command line.
use vstd::prelude::*;

use crate::commands::{flag_for, new_command, push_arg, push_args, push_flag_for};
use crate::text::{opt_text, texts};

verus! {

/// Arguments for the push command.
#[derive(Debug)]
pub struct PushArgs {
    /// Image to push (name, ID, or tag).
    pub image: String,
    /// Destination to push to. Defaults to the image name when omitted.
    pub destination: Option<String>,
    /// Remove the local image after a successful push.
    pub rm: bool,
    /// Manifest type to use when pushing, e.g. "oci" or "v2s2".
    pub format: Option<String>,
    /// Whether the certificate of the destination registry is verified.
    pub tls_verify: Option<bool>,
    /// Path to an authentication file.
    pub authfile: Option<String>,
    /// Extra arguments passed directly to buildah push.
    pub extra: Vec<String>,
}

/// The flag that says whether certificates are verified, where it is given.
pub open spec fn tls_flag(verify: Option<bool>) -> Seq<Seq<char>> {
    match verify {
        Some(true) => seq!["--tls-verify"@, "true"@],
        Some(false) => seq!["--tls-verify"@, "false"@],
        None => seq![],
    }
}

pub(crate) fn push_tls_flag(v: &mut Vec<String>, verify: Option<bool>)
    ensures
        texts(final(v)@) == texts(old(v)@) + tls_flag(verify),
{
    let ghost before = texts(v@);
    if let Some(on) = verify {
        push_arg(v, "--tls-verify");
        push_arg(
            v,
            if on {
                "true"
            } else {
                "false"
            },
        );
    }
    proof {
        assert(texts(v@) =~= before + tls_flag(verify));
    }
}

/// A flag, where it is set.
pub open spec fn switch(flag: Seq<char>, on: bool) -> Seq<Seq<char>> {
    if on {
        seq![flag]
    } else {
        seq![]
    }
}

pub(crate) fn push_switch(v: &mut Vec<String>, flag: &str, on: bool)
    ensures
        texts(final(v)@) == texts(old(v)@) + switch(flag@, on),
{
    let ghost before = texts(v@);
    if on {
        push_arg(v, flag);
    }
    proof {
        assert(texts(v@) =~= before + switch(flag@, on));
    }
}

/// The command of a push.
pub open spec fn push_words(args: PushArgs) -> Seq<Seq<char>> {
    seq!["push"@] + switch("--rm"@, args.rm) + flag_for("--format"@, opt_text(args.format))
        + tls_flag(args.tls_verify) + flag_for("--authfile"@, opt_text(args.authfile)) + texts(
        args.extra@,
    ) + seq![args.image@] + (match args.destination {
        Some(d) => seq![d@],
        None => seq![],
    })
}

/// The command that pushes an image to a registry.
pub fn push(args: &PushArgs) -> (r: Vec<String>)
    ensures
        texts(r@) == push_words(*args),
{
    let mut v = new_command("push");
    push_switch(&mut v, "--rm", args.rm);
    push_flag_for(&mut v, "--format", &args.format);
    push_tls_flag(&mut v, args.tls_verify);
    push_flag_for(&mut v, "--authfile", &args.authfile);
    push_args(&mut v, &args.extra);
    push_arg(&mut v, args.image.as_str());
    if let Some(d) = &args.destination {
        push_arg(&mut v, d.as_str());
    }
    proof {
        assert(texts(v@) =~= push_words(*args));
    }
    v
}

/// A push without options names the image only, or the image and where it goes. Each option that
/// is given adds its words, in front of what is handed on and of the image.
pub proof fn law_push_command(args: PushArgs)
    ensures
        ({
            let rm: Seq<Seq<char>> = if args.rm {
                seq!["--rm"@]
            } else {
                seq![]
            };
            let format = match args.format {
                Some(f) => seq!["--format"@, f@],
                None => seq![],
            };
            let tls = match args.tls_verify {
                Some(on) => seq![
                    "--tls-verify"@,
                    if on {
                        "true"@
                    } else {
                        "false"@
                    },
                ],
                None => seq![],
            };
            let auth = match args.authfile {
                Some(f) => seq!["--authfile"@, f@],
                None => seq![],
            };
            let target = match args.destination {
                Some(d) => seq![args.image@, d@],
                None => seq![args.image@],
            };
            push_words(args) == seq!["push"@] + rm + format + tls + auth + texts(args.extra@)
                + target
        }),
{
    let target = match args.destination {
        Some(d) => seq![args.image@, d@],
        None => seq![args.image@],
    };
    let front = seq!["push"@] + switch("--rm"@, args.rm) + flag_for(
        "--format"@,
        opt_text(args.format),
    ) + tls_flag(args.tls_verify) + flag_for("--authfile"@, opt_text(args.authfile)) + texts(
        args.extra@,
    );
    assert(push_words(args) =~= front + target);
}

} // verus!
