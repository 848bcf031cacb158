//! Where a scenario's recording and media go.

use vstd::prelude::*;

use crate::paths::{extension, file_stem, join, join_chars, parent, parent_of, stem_and_extension};
use crate::text::{append_chars, chars_of, same_chars, string_of};

verus! {

/// Why a scenario path is refused.
#[derive(Clone, Copy, Debug, PartialEq, Eq, Structural)]
pub enum BuildError {
    /// The scenario does not have the `.sh` extension.
    NotShellScript,
    /// The scenario path has no usable file stem.
    NoFileStem,
}

/// The files that running a scenario produces.
#[derive(Clone, Debug, PartialEq)]
pub struct BuildPaths {
    pub output_dir: String,
    pub cast: String,
    pub gif: String,
    pub mp4: String,
    pub snapshot_dir: String,
    pub stem: String,
}

/// The mathematical value of [`BuildPaths`].
pub struct BuildPathsModel {
    pub output_dir: Seq<char>,
    pub cast: Seq<char>,
    pub gif: Seq<char>,
    pub mp4: Seq<char>,
    pub snapshot_dir: Seq<char>,
    pub stem: Seq<char>,
}

impl View for BuildPaths {
    type V = BuildPathsModel;

    open spec fn view(&self) -> BuildPathsModel {
        BuildPathsModel {
            output_dir: self.output_dir@,
            cast: self.cast@,
            gif: self.gif@,
            mp4: self.mp4@,
            snapshot_dir: self.snapshot_dir@,
            stem: self.stem@,
        }
    }
}

/// The paths for the scenario `script`, written into `output_dir` when it
/// is given and otherwise into a directory named after the script's stem
/// beside the script (`.` when the script has no parent).
pub open spec fn build_paths_model(script: Seq<char>, output_dir: Option<Seq<char>>) -> Result<
    BuildPathsModel,
    BuildError,
> {
    if extension(script) != Some("sh"@) {
        Err(BuildError::NotShellScript)
    } else {
        match file_stem(script) {
            Some(stem) => if stem.len() == 0 {
                Err(BuildError::NoFileStem)
            } else {
                let dir = match parent(script) {
                    Some(p) => p,
                    None => "."@,
                };
                let out = match output_dir {
                    Some(o) => o,
                    None => join(dir, stem),
                };
                Ok(
                    BuildPathsModel {
                        output_dir: out,
                        cast: join(out, stem + ".cast"@),
                        gif: join(out, stem + ".gif"@),
                        mp4: join(out, stem + ".mp4"@),
                        snapshot_dir: join(out, "snapshots"@),
                        stem,
                    },
                )
            },
            None => Err(BuildError::NoFileStem),
        }
    }
}

pub open spec fn opt_view(o: Option<&str>) -> Option<Seq<char>> {
    match o {
        Some(s) => Some(s@),
        None => None,
    }
}

fn with_suffix(stem: &Vec<char>, suffix: &str) -> (r: Vec<char>)
    ensures
        r@ == stem@ + suffix@,
{
    let mut v: Vec<char> = Vec::new();
    append_chars(&mut v, stem);
    append_chars(&mut v, &chars_of(suffix));
    v
}

impl BuildPaths {
    /// The paths for the scenario `script`. Only a `.sh` script is accepted.
    pub fn new(script: &str, output_dir: Option<&str>) -> (r: Result<Self, BuildError>)
        ensures
            match r {
                Ok(p) => build_paths_model(script@, opt_view(output_dir)) == Ok::<
                    BuildPathsModel,
                    BuildError,
                >(p@),
                Err(e) => build_paths_model(script@, opt_view(output_dir)) == Err::<
                    BuildPathsModel,
                    BuildError,
                >(e),
            },
            r is Err ==> r == Err::<BuildPaths, BuildError>(BuildError::NotShellScript),
    {
        let s = chars_of(script);
        let (stem, ext) = stem_and_extension(&s);
        let is_sh = match &ext {
            Some(e) => same_chars(e, &chars_of("sh")),
            None => false,
        };
        if !is_sh {
            return Err(BuildError::NotShellScript);
        }
        proof {
            crate::paths::lemma_extension_has_stem(s@);
        }
        let stem = match stem {
            Some(st) => st,
            None => {
                return Err(BuildError::NoFileStem);
            },
        };
        if stem.len() == 0 {
            return Err(BuildError::NoFileStem);
        }
        let out = match output_dir {
            Some(o) => chars_of(o),
            None => {
                let dir = match parent_of(&s) {
                    Some(p) => p,
                    None => chars_of("."),
                };
                join_chars(&dir, &stem)
            },
        };
        let cast = join_chars(&out, &with_suffix(&stem, ".cast"));
        let gif = join_chars(&out, &with_suffix(&stem, ".gif"));
        let mp4 = join_chars(&out, &with_suffix(&stem, ".mp4"));
        let snapshot_dir = join_chars(&out, &chars_of("snapshots"));
        Ok(
            BuildPaths {
                output_dir: string_of(&out),
                cast: string_of(&cast),
                gif: string_of(&gif),
                mp4: string_of(&mp4),
                snapshot_dir: string_of(&snapshot_dir),
                stem: string_of(&stem),
            },
        )
    }
}


/// Everything a scenario produces lies in its output directory and is
/// named after the script's stem: the cast, GIF and MP4 as `<stem>.cast`,
/// `<stem>.gif` and `<stem>.mp4`, the snapshots under `snapshots`. The
/// output directory is the one given, else `<stem>` beside the script.
/// Exactly the `.sh` scripts are accepted.
pub proof fn lemma_media_in_output_dir(script: Seq<char>, output_dir: Option<Seq<char>>)
    ensures
        build_paths_model(script, output_dir) is Ok <==> extension(script) == Some("sh"@),
        build_paths_model(script, output_dir) matches Ok(p) ==> {
            &&& p.stem == file_stem(script)->0
            &&& p.stem.len() > 0
            &&& p.cast == join(p.output_dir, p.stem + ".cast"@)
            &&& p.gif == join(p.output_dir, p.stem + ".gif"@)
            &&& p.mp4 == join(p.output_dir, p.stem + ".mp4"@)
            &&& p.snapshot_dir == join(p.output_dir, "snapshots"@)
            &&& (output_dir matches Some(o) ==> p.output_dir == o)
            &&& (output_dir is None ==> p.output_dir == join(
                if parent(script) is Some {
                    parent(script)->0
                } else {
                    "."@
                },
                p.stem,
            ))
        },
{
    if extension(script) == Some("sh"@) {
        crate::paths::lemma_extension_has_stem(script);
    }
}

} // verus!
