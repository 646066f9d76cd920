//! Construction of the container invocation for each pipeline step, and
//! of the `(generator, scope)` step list.
//!
//! Every command is `run --rm -v {work}:/work {user args...} {image}
//! {tool args...}`; the caller supplies the user-mapping arguments, which
//! are empty on platforms without one.

use vstd::prelude::*;

use crate::config::{Config, Mode};
use crate::docker::ContainerCommand;
use crate::text::{spec_basename, string_pair_views};

verus! {

/// The `run --rm -v {work}:/work {user...}` prefix every step shares.
pub open spec fn spec_run_prefix(work_dir: Seq<char>, user: Seq<Seq<char>>) -> Seq<Seq<char>> {
    seq!["run"@, "--rm"@, "-v"@, work_dir + ":/work"@] + user
}

/// The Spectral lint invocation's full argument list.
pub open spec fn spec_spectral_args(
    cfg: Config,
    spec_path: Seq<char>,
    work_dir: Seq<char>,
    user: Seq<Seq<char>>,
) -> Seq<Seq<char>> {
    spec_run_prefix(work_dir, user) + seq![
        cfg.spectral_image@,
        "lint"@,
        "/work/"@ + spec_basename(spec_path),
        "--ruleset"@,
        cfg.spectral_ruleset@,
        "--fail-severity"@,
        cfg.spectral_fail_severity@,
        "-f"@,
        "stylish"@,
    ]
}

/// The Redocly lint invocation's full argument list.
pub open spec fn spec_redocly_args(
    cfg: Config,
    spec_path: Seq<char>,
    work_dir: Seq<char>,
    user: Seq<Seq<char>>,
) -> Seq<Seq<char>> {
    spec_run_prefix(work_dir, user) + seq![
        cfg.redocly_image@,
        "lint"@,
        "/work/"@ + spec_basename(spec_path),
        "--format"@,
        "stylish"@,
    ]
}

/// The output directory a generate step writes into.
pub open spec fn spec_output_dir(generator: Seq<char>, scope: Seq<char>) -> Seq<char> {
    "/work/.generated/"@ + generator + "-"@ + scope
}

/// The code-generation invocation's full argument list.
pub open spec fn spec_generator_args(
    cfg: Config,
    spec_path: Seq<char>,
    work_dir: Seq<char>,
    user: Seq<Seq<char>>,
    generator: Seq<char>,
    scope: Seq<char>,
) -> Seq<Seq<char>> {
    spec_run_prefix(work_dir, user) + seq![
        cfg.generator_image@,
        "generate"@,
        "-i"@,
        "/work/"@ + spec_basename(spec_path),
        "-g"@,
        generator,
        "-o"@,
        spec_output_dir(generator, scope),
    ]
}

/// The image a compile step runs: the generator's override if one is
/// configured, else the generator image.
pub open spec fn spec_compile_image(cfg: Config, generator: Seq<char>) -> Seq<char> {
    match crate::config::spec_override_for(
        crate::config::override_views(cfg.generator_overrides@),
        generator,
    ) {
        Some(img) => img,
        None => cfg.generator_image@,
    }
}

/// The compile invocation's full argument list.
pub open spec fn spec_compile_args(
    cfg: Config,
    work_dir: Seq<char>,
    user: Seq<Seq<char>>,
    generator: Seq<char>,
    scope: Seq<char>,
) -> Seq<Seq<char>> {
    spec_run_prefix(work_dir, user) + seq![
        spec_compile_image(cfg, generator),
        "batch"@,
        "--includes"@,
        spec_output_dir(generator, scope),
    ]
}

/// Append clones of all of `src` to `dst`.
fn push_all(dst: &mut Vec<String>, src: &Vec<String>)
    ensures
        final(dst).deep_view() == old(dst).deep_view() + src.deep_view(),
{
    let mut i: usize = 0;
    while i < src.len()
        invariant
            i <= src@.len(),
            dst@.len() == old(dst)@.len() + i,
            forall|k: int| 0 <= k < old(dst)@.len() ==> dst@[k] == old(dst)@[k],
            forall|k: int|
                0 <= k < i ==> dst@[old(dst)@.len() + k]@ == #[trigger] src@[k]@,
        decreases src@.len() - i,
    {
        dst.push(src[i].clone());
        i = i + 1;
    }
    proof {
        assert forall|k: int| 0 <= k < dst@.len() implies dst.deep_view()[k] == (
        old(dst).deep_view() + src.deep_view())[k] by {
            assert(dst.deep_view()[k] == dst@[k]@);
            if k < old(dst)@.len() {
                assert(dst@[k] == old(dst)@[k]);
            } else {
                assert(dst@[k]@ == src@[k - old(dst)@.len()]@);
            }
        }
        assert(dst.deep_view() =~= old(dst).deep_view() + src.deep_view());
    }
}

/// The shared `run --rm -v {work}:/work {user...}` argument prefix.
fn run_prefix(work_dir: &str, user_args: &Vec<String>) -> (r: Vec<String>)
    ensures
        r.deep_view() == spec_run_prefix(work_dir@, user_args.deep_view()),
{
    let mut args: Vec<String> = Vec::new();
    args.push(String::from_str("run"));
    args.push(String::from_str("--rm"));
    args.push(String::from_str("-v"));
    args.push(String::from_str(work_dir).concat(":/work"));
    proof {
        assert(args.deep_view() =~~= seq!["run"@, "--rm"@, "-v"@, work_dir@ + ":/work"@]);
    }
    push_all(&mut args, user_args);
    proof {
        assert(args.deep_view() =~= spec_run_prefix(work_dir@, user_args.deep_view()));
    }
    args
}

/// Build the lint command for Spectral.
pub fn spectral_command(
    cfg: &Config,
    spec_path: &str,
    work_dir: &str,
    user_args: &Vec<String>,
) -> (cmd: ContainerCommand)
    ensures
        cmd.args.deep_view() == spec_spectral_args(
            *cfg,
            spec_path@,
            work_dir@,
            user_args.deep_view(),
        ),
        cmd.timeout_secs == cfg.docker_timeout,
        cmd.log_path is None,
{
    let mut args = run_prefix(work_dir, user_args);
    let ghost prefix = args.deep_view();
    args.push(cfg.spectral_image.clone());
    args.push(String::from_str("lint"));
    args.push(String::from_str("/work/").concat(crate::text::basename(spec_path).as_str()));
    args.push(String::from_str("--ruleset"));
    args.push(cfg.spectral_ruleset.clone());
    args.push(String::from_str("--fail-severity"));
    args.push(cfg.spectral_fail_severity.clone());
    args.push(String::from_str("-f"));
    args.push(String::from_str("stylish"));
    proof {
        assert(args.deep_view() =~~= prefix + seq![
            cfg.spectral_image@,
            "lint"@,
            "/work/"@ + spec_basename(spec_path@),
            "--ruleset"@,
            cfg.spectral_ruleset@,
            "--fail-severity"@,
            cfg.spectral_fail_severity@,
            "-f"@,
            "stylish"@,
        ]);
    }
    ContainerCommand { args, timeout_secs: cfg.docker_timeout, log_path: None }
}

/// Build the lint command for Redocly.
pub fn redocly_command(
    cfg: &Config,
    spec_path: &str,
    work_dir: &str,
    user_args: &Vec<String>,
) -> (cmd: ContainerCommand)
    ensures
        cmd.args.deep_view() == spec_redocly_args(
            *cfg,
            spec_path@,
            work_dir@,
            user_args.deep_view(),
        ),
        cmd.timeout_secs == cfg.docker_timeout,
        cmd.log_path is None,
{
    let mut args = run_prefix(work_dir, user_args);
    let ghost prefix = args.deep_view();
    args.push(cfg.redocly_image.clone());
    args.push(String::from_str("lint"));
    args.push(String::from_str("/work/").concat(crate::text::basename(spec_path).as_str()));
    args.push(String::from_str("--format"));
    args.push(String::from_str("stylish"));
    proof {
        assert(args.deep_view() =~~= prefix + seq![
            cfg.redocly_image@,
            "lint"@,
            "/work/"@ + spec_basename(spec_path@),
            "--format"@,
            "stylish"@,
        ]);
    }
    ContainerCommand { args, timeout_secs: cfg.docker_timeout, log_path: None }
}

/// The `/work/.generated/{generator}-{scope}` directory of a step.
fn output_dir(generator: &str, scope: &str) -> (r: String)
    ensures
        r@ == spec_output_dir(generator@, scope@),
{
    let mut s = String::from_str("/work/.generated/");
    s.append(generator);
    s.append("-");
    s.append(scope);
    proof {
        assert(s@ =~= spec_output_dir(generator@, scope@));
    }
    s
}

/// Build the code-generation command for one generator and scope.
pub fn generator_command(
    cfg: &Config,
    spec_path: &str,
    work_dir: &str,
    generator: &str,
    scope: &str,
    user_args: &Vec<String>,
) -> (cmd: ContainerCommand)
    ensures
        cmd.args.deep_view() == spec_generator_args(
            *cfg,
            spec_path@,
            work_dir@,
            user_args.deep_view(),
            generator@,
            scope@,
        ),
        cmd.timeout_secs == cfg.docker_timeout,
        cmd.log_path is None,
{
    let mut args = run_prefix(work_dir, user_args);
    let ghost prefix = args.deep_view();
    args.push(cfg.generator_image.clone());
    args.push(String::from_str("generate"));
    args.push(String::from_str("-i"));
    args.push(String::from_str("/work/").concat(crate::text::basename(spec_path).as_str()));
    args.push(String::from_str("-g"));
    args.push(String::from_str(generator));
    args.push(String::from_str("-o"));
    args.push(output_dir(generator, scope));
    proof {
        assert(args.deep_view() =~~= prefix + seq![
            cfg.generator_image@,
            "generate"@,
            "-i"@,
            "/work/"@ + spec_basename(spec_path@),
            "-g"@,
            generator@,
            "-o"@,
            spec_output_dir(generator@, scope@),
        ]);
    }
    ContainerCommand { args, timeout_secs: cfg.docker_timeout, log_path: None }
}

/// Build the compile command for one generator's output, using the
/// generator's override image when configured.
pub fn compile_command(
    cfg: &Config,
    work_dir: &str,
    generator: &str,
    scope: &str,
    user_args: &Vec<String>,
) -> (cmd: ContainerCommand)
    ensures
        cmd.args.deep_view() == spec_compile_args(
            *cfg,
            work_dir@,
            user_args.deep_view(),
            generator@,
            scope@,
        ),
        cmd.timeout_secs == cfg.docker_timeout,
        cmd.log_path is None,
{
    let mut args = run_prefix(work_dir, user_args);
    let ghost prefix = args.deep_view();
    let image = match cfg.override_for(generator) {
        Some(img) => img.clone(),
        None => cfg.generator_image.clone(),
    };
    args.push(image);
    args.push(String::from_str("batch"));
    args.push(String::from_str("--includes"));
    args.push(output_dir(generator, scope));
    proof {
        assert(args.deep_view() =~~= prefix + seq![
            spec_compile_image(*cfg, generator@),
            "batch"@,
            "--includes"@,
            spec_output_dir(generator@, scope@),
        ]);
    }
    ContainerCommand { args, timeout_secs: cfg.docker_timeout, log_path: None }
}

/// The `(generator, scope)` pairs a configuration calls for: server
/// generators, client generators, or both lists in that order.
pub open spec fn spec_generator_list(cfg: Config) -> Seq<(Seq<char>, Seq<char>)> {
    let server = cfg.server_generators@.map_values(|g: String| (g@, "server"@));
    let client = cfg.client_generators@.map_values(|g: String| (g@, "client"@));
    match cfg.mode {
        Mode::Server => server,
        Mode::Client => client,
        Mode::Both => server + client,
    }
}

/// Append `(generator, scope)` pairs for every generator in a list.
fn push_pairs(pairs: &mut Vec<(String, String)>, generators: &Vec<String>, scope: &str)
    ensures
        string_pair_views(final(pairs)@) == string_pair_views(old(pairs)@)
            + generators@.map_values(|g: String| (g@, scope@)),
{
    let mut i: usize = 0;
    while i < generators.len()
        invariant
            i <= generators@.len(),
            pairs@.len() == old(pairs)@.len() + i,
            forall|k: int| 0 <= k < old(pairs)@.len() ==> pairs@[k] == old(pairs)@[k],
            forall|k: int|
                0 <= k < i ==> (#[trigger] pairs@[old(pairs)@.len() + k]).0@ == generators@[k]@
                    && pairs@[old(pairs)@.len() + k].1@ == scope@,
        decreases generators@.len() - i,
    {
        pairs.push((generators[i].clone(), String::from_str(scope)));
        i = i + 1;
    }
    proof {
        let lhs = string_pair_views(pairs@);
        let rhs = string_pair_views(old(pairs)@) + generators@.map_values(
            |g: String| (g@, scope@),
        );
        let f = |p: (String, String)| (p.0@, p.1@);
        let m = |g: String| (g@, scope@);
        assert(lhs.len() == pairs@.len());
        assert forall|k: int| 0 <= k < lhs.len() implies lhs[k] == rhs[k] by {
            assert(lhs[k] == f(pairs@[k]));
            if k < old(pairs)@.len() {
                assert(pairs@[k] == old(pairs)@[k]);
                assert(rhs[k] == string_pair_views(old(pairs)@)[k]);
                assert(string_pair_views(old(pairs)@)[k] == f(old(pairs)@[k]));
            } else {
                let j = k - old(pairs)@.len();
                assert(rhs[k] == generators@.map_values(m)[j]);
                assert(generators@.map_values(m)[j] == m(generators@[j]));
                assert(pairs@[old(pairs)@.len() + j].0@ == generators@[j]@);
                assert(pairs@[old(pairs)@.len() + j].1@ == scope@);
                assert(pairs@[k].0@ == generators@[j]@);
                assert(pairs@[k].1@ == scope@);
            }
        }
        assert(lhs =~= rhs);
    }
}

/// Resolve the full ordered list of `(generator, scope)` pairs from the
/// configuration's mode and generator lists.
pub fn build_generator_list(cfg: &Config) -> (r: Vec<(String, String)>)
    ensures
        string_pair_views(r@) == spec_generator_list(*cfg),
{
    let mut pairs: Vec<(String, String)> = Vec::new();
    proof {
        assert(string_pair_views(pairs@) =~= Seq::<(Seq<char>, Seq<char>)>::empty());
    }
    match cfg.mode {
        Mode::Server => {
            push_pairs(&mut pairs, &cfg.server_generators, "server");
            proof {
                assert(string_pair_views(pairs@) =~= spec_generator_list(*cfg));
            }
        },
        Mode::Client => {
            push_pairs(&mut pairs, &cfg.client_generators, "client");
            proof {
                assert(string_pair_views(pairs@) =~= spec_generator_list(*cfg));
            }
        },
        Mode::Both => {
            push_pairs(&mut pairs, &cfg.server_generators, "server");
            push_pairs(&mut pairs, &cfg.client_generators, "client");
            proof {
                assert(string_pair_views(pairs@) =~= spec_generator_list(*cfg));
            }
        },
    }
    pairs
}

} // verus!
