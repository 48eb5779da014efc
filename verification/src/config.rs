//! Configuration consumed by the pipeline: credential, requested formats,
//! placement policy, output paths, and behavior flags. Loading and saving the
//! configuration file is left to the surrounding program.

use vstd::prelude::*;

verus! {

#[derive(Clone, Debug)]
pub struct Config {
    pub user: UserConfig,
    pub download: DownloadConfig,
    pub paths: PathsConfig,
    pub behavior: BehaviorConfig,
}

#[derive(Clone, Debug)]
pub struct UserConfig {
    pub cookie: String,
}

#[derive(Clone, Debug)]
pub struct DownloadConfig {
    /// Requested formats, a subset of {"128", "MP3", "FLAC", "gift"}.
    pub formats: Vec<String>,
    /// Write extracted members directly under the item directory instead of
    /// under a per-format subdirectory.
    pub flatten: bool,
}

#[derive(Clone, Debug)]
pub struct PathsConfig {
    pub output_dir: String,
    pub directory_template: String,
}

#[derive(Clone, Debug)]
pub struct BehaviorConfig {
    pub skip_existing: bool,
    pub single_threaded: bool,
    pub generate_readme: bool,
    pub generate_nfo: bool,
    pub metadata_only: bool,
    pub debug: bool,
}

/// The default for the sidecar-generation flags.
pub fn default_true() -> (r: bool)
    ensures
        r,
{
    true
}

impl Default for Config {
    /// The default configuration: empty credential, formats MP3 then FLAC,
    /// per-format subdirectories, output under "./DizzySync" with the
    /// "{album}/@{label}" directory template, and conservative behavior
    /// (skip existing, single-threaded, both sidecars, full downloads).
    fn default() -> (c: Config)
        ensures
            c.user.cookie@ == Seq::<char>::empty(),
            c.download.formats.deep_view() =~= seq!["MP3"@, "FLAC"@],
            !c.download.flatten,
            c.paths.output_dir@ == "./DizzySync"@,
            c.paths.directory_template@ == "{album}/@{label}"@,
            c.behavior.skip_existing,
            c.behavior.single_threaded,
            c.behavior.generate_readme,
            c.behavior.generate_nfo,
            !c.behavior.metadata_only,
            !c.behavior.debug,
    {
        let mut formats: Vec<String> = Vec::new();
        let mp3: String = String::from_str("MP3");
        let flac: String = String::from_str("FLAC");
        formats.push(mp3);
        formats.push(flac);
        assert(formats.deep_view() =~= seq!["MP3"@, "FLAC"@]);
        Config {
            user: UserConfig { cookie: String::new() },
            download: DownloadConfig { formats, flatten: false },
            paths: PathsConfig {
                output_dir: String::from_str("./DizzySync"),
                directory_template: String::from_str("{album}/@{label}"),
            },
            behavior: BehaviorConfig {
                skip_existing: true,
                single_threaded: true,
                generate_readme: true,
                generate_nfo: true,
                metadata_only: false,
                debug: false,
            },
        }
    }
}

} // verus!
