//! Docker command lines.
use vstd::prelude::*;

use crate::text::{join, join_strings, owned, push_str, views};

verus! {

broadcast use vstd::string::group_string_axioms;

/// A `docker buildx build` request.
#[derive(Debug)]
pub struct DockerBuild {
    pub context: String,
    pub dockerfile: String,
    pub build_args: Vec<(String, String)>,
    pub cache_from: Vec<String>,
    pub cache_to: Vec<String>,
    pub metadata_file: Option<String>,
    pub tags: Vec<String>,
    pub platforms: Vec<String>,
    pub sbom: bool,
    pub provenance: bool,
    pub push: bool,
    pub load: bool,
}

/// A `docker buildx imagetools create` request: one multi-platform tag made
/// from per-platform images.
#[derive(Debug)]
pub struct DockerManifest {
    pub tags: Vec<String>,
    pub sources: Vec<String>,
}

/// `flag value` for every value, in order.
pub open spec fn flagged(flag: Seq<char>, values: Seq<Seq<char>>) -> Seq<Seq<char>>
    decreases values.len(),
{
    if values.len() == 0 {
        Seq::empty()
    } else {
        flagged(flag, values.drop_last()) + seq![flag, values.last()]
    }
}

/// `name=value` for every build argument.
pub open spec fn assignments(args: Seq<(String, String)>) -> Seq<Seq<char>> {
    args.map_values(|a: (String, String)| a.0@ + "="@ + a.1@)
}

/// `seq![x]` when `b`, else nothing.
pub open spec fn when(b: bool, x: Seq<char>) -> Seq<Seq<char>> {
    if b {
        seq![x]
    } else {
        Seq::empty()
    }
}

/// The words of a build command line.
pub open spec fn build_words(b: DockerBuild) -> Seq<Seq<char>> {
    seq!["docker"@, "buildx"@, "build"@, "--file"@, b.dockerfile@]
        + flagged("--build-arg"@, assignments(b.build_args@))
        + flagged("--cache-from"@, views(b.cache_from@))
        + flagged("--cache-to"@, views(b.cache_to@))
        + match b.metadata_file {
            Some(m) => seq!["--metadata-file"@, m@],
            None => Seq::empty(),
        }
        + (if b.platforms.len() > 0 {
            seq!["--platform"@, join(views(b.platforms@), ","@)]
        } else {
            Seq::empty()
        })
        + when(b.sbom, "--sbom=true"@)
        + when(b.provenance, "--provenance=true"@)
        + flagged("--tag"@, views(b.tags@))
        + when(b.push, "--push"@)
        + when(b.load, "--load"@)
        + seq![b.context@]
}

/// The words of a manifest command line.
pub open spec fn manifest_words(m: DockerManifest) -> Seq<Seq<char>> {
    seq!["docker"@, "buildx"@, "imagetools"@, "create"@] + flagged("--tag"@, views(m.tags@))
        + views(m.sources@)
}

/// Pushes `flag value` for every value.
fn push_flagged(parts: &mut Vec<String>, flag: &str, values: &Vec<String>)
    ensures
        views(final(parts)@) == views(old(parts)@) + flagged(flag@, views(values@)),
{
    let ghost start = views(parts@);
    let mut i: usize = 0;
    while i < values.len()
        invariant
            i <= values.len(),
            views(parts@) == start + flagged(flag@, views(values@.take(i as int))),
        decreases values.len() - i,
    {
        let ghost before = views(parts@);
        parts.push(owned(flag));
        parts.push(values[i].clone());
        proof {
            let vi = views(values@.take(i + 1));
            assert(views(parts@) =~= before + seq![flag@, values@[i as int]@]);
            assert(vi.drop_last() =~= views(values@.take(i as int)));
            assert(vi.last() == values@[i as int]@);
            assert(views(parts@) =~= start + flagged(flag@, vi));
        }
        i += 1;
    }
    assert(values@.take(values.len() as int) =~= values@);
}

impl DockerBuild {
    /// The command line the request runs, words separated by spaces.
    pub fn display(&self) -> (s: String)
        ensures
            s@ == join(build_words(*self), " "@),
    {
        join_strings(&self.words(), " ")
    }

    /// A request can either push its image or load it, not both.
    pub fn can_run(&self) -> (r: bool)
        ensures
            r == !(self.push && self.load),
    {
        !(self.push && self.load)
    }

    /// The words of the command line the request runs.
    pub fn words(&self) -> (r: Vec<String>)
        ensures
            views(r@) == build_words(*self),
    {
        let mut parts: Vec<String> = Vec::new();
        parts.push(owned("docker"));
        parts.push(owned("buildx"));
        parts.push(owned("build"));
        parts.push(owned("--file"));
        parts.push(self.dockerfile.clone());
        let ghost p0 = views(parts@);
        assert(p0 =~= seq!["docker"@, "buildx"@, "build"@, "--file"@, self.dockerfile@]);
        let mut i: usize = 0;
        while i < self.build_args.len()
            invariant
                i <= self.build_args.len(),
                views(parts@) == p0 + flagged(
                    "--build-arg"@,
                    assignments(self.build_args@.take(i as int)),
                ),
            decreases self.build_args.len() - i,
        {
            let (name, value) = &self.build_args[i];
            let mut arg = name.clone();
            push_str(&mut arg, "=");
            push_str(&mut arg, value.as_str());
            let ghost before = views(parts@);
            let ghost argv = arg@;
            parts.push(owned("--build-arg"));
            parts.push(arg);
            proof {
                let a = assignments(self.build_args@.take(i + 1));
                assert(views(parts@) =~= before + seq!["--build-arg"@, argv]);
                assert(a.drop_last() =~= assignments(self.build_args@.take(i as int)));
                assert(a.last() == argv);
                assert(views(parts@) =~= p0 + flagged("--build-arg"@, a));
            }
            i += 1;
        }
        assert(self.build_args@.take(self.build_args.len() as int) =~= self.build_args@);
        push_flagged(&mut parts, "--cache-from", &self.cache_from);
        push_flagged(&mut parts, "--cache-to", &self.cache_to);
        let ghost p1 = views(parts@);
        if let Some(m) = &self.metadata_file {
            parts.push(owned("--metadata-file"));
            parts.push(m.clone());
        }
        assert(views(parts@) =~= p1 + match self.metadata_file {
            Some(m) => seq!["--metadata-file"@, m@],
            None => Seq::<Seq<char>>::empty(),
        });
        let ghost p2 = views(parts@);
        if self.platforms.len() > 0 {
            parts.push(owned("--platform"));
            parts.push(join_strings(&self.platforms, ","));
        }
        assert(views(parts@) =~= p2 + (if self.platforms.len() > 0 {
            seq!["--platform"@, join(views(self.platforms@), ","@)]
        } else {
            Seq::<Seq<char>>::empty()
        }));
        let ghost p3 = views(parts@);
        if self.sbom {
            parts.push(owned("--sbom=true"));
        }
        assert(views(parts@) =~= p3 + when(self.sbom, "--sbom=true"@));
        let ghost p4 = views(parts@);
        if self.provenance {
            parts.push(owned("--provenance=true"));
        }
        assert(views(parts@) =~= p4 + when(self.provenance, "--provenance=true"@));
        push_flagged(&mut parts, "--tag", &self.tags);
        let ghost p5 = views(parts@);
        if self.push {
            parts.push(owned("--push"));
        }
        assert(views(parts@) =~= p5 + when(self.push, "--push"@));
        let ghost p6 = views(parts@);
        if self.load {
            parts.push(owned("--load"));
        }
        assert(views(parts@) =~= p6 + when(self.load, "--load"@));
        let ghost p7 = views(parts@);
        parts.push(self.context.clone());
        assert(views(parts@) =~= p7 + seq![self.context@]);
        assert(views(parts@) =~= build_words(*self));
        parts
    }
}

impl DockerManifest {
    /// The command line the request runs, words separated by spaces.
    pub fn display(&self) -> (s: String)
        ensures
            s@ == join(manifest_words(*self), " "@),
    {
        join_strings(&self.words(), " ")
    }

    /// The words of the command line the request runs.
    pub fn words(&self) -> (r: Vec<String>)
        ensures
            views(r@) == manifest_words(*self),
    {
        let mut parts: Vec<String> = Vec::new();
        parts.push(owned("docker"));
        parts.push(owned("buildx"));
        parts.push(owned("imagetools"));
        parts.push(owned("create"));
        let ghost p0 = views(parts@);
        push_flagged(&mut parts, "--tag", &self.tags);
        let ghost p1 = views(parts@);
        let mut i: usize = 0;
        while i < self.sources.len()
            invariant
                i <= self.sources.len(),
                views(parts@) == p1 + views(self.sources@.take(i as int)),
            decreases self.sources.len() - i,
        {
            let ghost before = views(parts@);
            parts.push(self.sources[i].clone());
            assert(views(parts@) =~= before.push(self.sources@[i as int]@));
            assert(views(parts@) =~= p1 + views(self.sources@.take(i + 1)));
            i += 1;
        }
        assert(self.sources@.take(self.sources.len() as int) =~= self.sources@);
        assert(views(parts@) =~= manifest_words(*self));
        parts
    }
}

} // verus!
