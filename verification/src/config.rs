//! Pipeline configuration: target mode, phase switches, linter selection,
//! generator lists, container images and the worker cap.

use vstd::prelude::*;

verus! {

/// Which side of the API to generate code for.
#[derive(Debug, Clone, Copy, PartialEq, Eq, Structural)]
pub enum Mode {
    Server,
    Client,
    Both,
}

impl Mode {
    /// The canonical name of the mode.
    pub fn as_str(&self) -> (r: &'static str)
        ensures
            self is Server ==> r@ == "server"@,
            self is Client ==> r@ == "client"@,
            self is Both ==> r@ == "both"@,
    {
        match self {
            Mode::Server => "server",
            Mode::Client => "client",
            Mode::Both => "both",
        }
    }
}

/// Which linter the lint phase runs.
#[derive(Debug, Clone, Copy, PartialEq, Eq, Structural)]
pub enum Linter {
    Spectral,
    Redocly,
    Off,
}

impl Linter {
    /// The canonical name of the linter.
    pub fn as_str(&self) -> (r: &'static str)
        ensures
            self is Spectral ==> r@ == "spectral"@,
            self is Redocly ==> r@ == "redocly"@,
            self is Off ==> r@ == "none"@,
    {
        match self {
            Linter::Spectral => "spectral",
            Linter::Redocly => "redocly",
            Linter::Off => "none",
        }
    }
}

/// The worker cap: a fixed positive count, or an automatic choice made
/// from the machine's available parallelism.
#[derive(Debug, Clone, Copy, PartialEq, Eq, Structural)]
pub enum Jobs {
    Auto,
    Fixed(usize),
}

/// What the worker cap resolves to: the fixed count, or the available
/// parallelism capped at four.
pub open spec fn spec_resolve_jobs(j: Jobs, available: usize) -> int {
    match j {
        Jobs::Fixed(n) => n as int,
        Jobs::Auto => if available < 4 {
            available as int
        } else {
            4
        },
    }
}

impl Jobs {
    /// Resolve the cap against the machine's available parallelism (as
    /// reported by the caller).
    pub fn resolve(self, available: usize) -> (r: usize)
        ensures
            r as int == spec_resolve_jobs(self, available),
    {
        match self {
            Jobs::Fixed(n) => n,
            Jobs::Auto => if available < 4 {
                available
            } else {
                4
            },
        }
    }
}

/// The first override image configured for a generator, if any.
pub open spec fn spec_override_for(overrides: Seq<(Seq<char>, Seq<char>)>, generator: Seq<
    char,
>) -> Option<Seq<char>>
    decreases overrides.len(),
{
    if overrides.len() == 0 {
        None
    } else if overrides[0].0 == generator {
        Some(overrides[0].1)
    } else {
        spec_override_for(overrides.drop_first(), generator)
    }
}

/// The override pairs a configuration holds, as views.
pub open spec fn override_views(overrides: Seq<(String, String)>) -> Seq<(Seq<char>, Seq<char>)> {
    overrides.map_values(|p: (String, String)| (p.0@, p.1@))
}

/// The full pipeline configuration. Generator overrides are an
/// association list from generator name to container image; the first
/// entry for a name wins.
#[derive(Debug, Clone)]
pub struct Config {
    pub spec: Option<String>,
    pub mode: Mode,
    pub lint: bool,
    pub generate: bool,
    pub compile: bool,
    pub linter: Linter,
    pub server_generators: Vec<String>,
    pub client_generators: Vec<String>,
    pub generator_overrides: Vec<(String, String)>,
    pub generator_image: String,
    pub redocly_image: String,
    pub spectral_image: String,
    pub spectral_ruleset: String,
    pub spectral_fail_severity: String,
    pub docker_timeout: u64,
    pub search_depth: usize,
    pub jobs: Jobs,
}

impl Config {
    /// Look up the override image for a generator.
    pub fn override_for(&self, generator: &str) -> (r: Option<&String>)
        ensures
            match r {
                Some(img) => spec_override_for(
                    override_views(self.generator_overrides@),
                    generator@,
                ) == Some(img@),
                None => spec_override_for(
                    override_views(self.generator_overrides@),
                    generator@,
                ) is None,
            },
    {
        let gen_chars = crate::text::str_to_chars(generator);
        let ghost ov = override_views(self.generator_overrides@);
        let mut i: usize = 0;
        proof {
            assert(ov.skip(0) =~= ov);
        }
        while i < self.generator_overrides.len()
            invariant
                i <= self.generator_overrides@.len(),
                ov == override_views(self.generator_overrides@),
                ov.len() == self.generator_overrides@.len(),
                forall|k: int|
                    0 <= k < ov.len() ==> #[trigger] ov[k] == (
                    self.generator_overrides@[k].0@,
                    self.generator_overrides@[k].1@,
                    ),
                gen_chars@ == generator@,
                spec_override_for(ov, generator@) == spec_override_for(
                    ov.skip(i as int),
                    generator@,
                ),
            decreases self.generator_overrides@.len() - i,
        {
            if crate::text::chars_eq_str(&gen_chars, self.generator_overrides[i].0.as_str()) {
                proof {
                    assert(ov.skip(i as int)[0] == ov[i as int]);
                    assert(spec_override_for(ov.skip(i as int), generator@) == Some(
                        ov[i as int].1,
                    ));
                }
                return Some(&self.generator_overrides[i].1);
            }
            proof {
                assert(ov.skip(i as int)[0] == ov[i as int]);
                assert(ov.skip(i as int).drop_first() =~= ov.skip(i + 1));
            }
            i = i + 1;
        }
        proof {
            assert(ov.skip(ov.len() as int) =~= Seq::<(Seq<char>, Seq<char>)>::empty());
        }
        None
    }
}

impl Default for Config {
    /// The configuration the system starts from: server mode, every phase
    /// enabled, Spectral as linter, default images, a five-minute step
    /// timeout and an automatic worker cap.
    fn default() -> (r: Self)
        ensures
            r.spec is None,
            r.mode == Mode::Server,
            r.lint == true,
            r.generate == true,
            r.compile == true,
            r.linter == Linter::Spectral,
            r.server_generators@.len() == 0,
            r.client_generators@.len() == 0,
            r.generator_overrides@.len() == 0,
            r.generator_image@ == "openapitools/openapi-generator-cli:v7.17.0"@,
            r.redocly_image@ == "redocly/cli:1.25.5"@,
            r.spectral_image@ == "stoplight/spectral:6"@,
            r.spectral_ruleset@
                == "https://raw.githubusercontent.com/entur/api-guidelines/refs/tags/v2/.spectral.yml"@,
            r.spectral_fail_severity@ == "error"@,
            r.docker_timeout == 300,
            r.search_depth == 4,
            r.jobs == Jobs::Auto,
    {
        Config {
            spec: None,
            mode: Mode::Server,
            lint: true,
            generate: true,
            compile: true,
            linter: Linter::Spectral,
            server_generators: Vec::new(),
            client_generators: Vec::new(),
            generator_overrides: Vec::new(),
            generator_image: String::from_str("openapitools/openapi-generator-cli:v7.17.0"),
            redocly_image: String::from_str("redocly/cli:1.25.5"),
            spectral_image: String::from_str("stoplight/spectral:6"),
            spectral_ruleset: String::from_str(
                "https://raw.githubusercontent.com/entur/api-guidelines/refs/tags/v2/.spectral.yml",
            ),
            spectral_fail_severity: String::from_str("error"),
            docker_timeout: 300,
            search_depth: 4,
            jobs: Jobs::Auto,
        }
    }
}

} // verus!
