//! Expanding `image.toml` definitions into image targets: one target per
//! variant, with the variant's overrides applied, and the whole catalog
//! sorted by id.
use vstd::prelude::*;

use crate::model::{
    archive_views, copy_opt, copy_strings, opt_healthcheck, opt_init, opt_java, opt_source,
    opt_view, raw_archive_views, role_order, target_views, tool_views, HealthcheckRuntime,
    HealthcheckRuntimeView, ImageCatalog, ImageSource, ImageSourceView, ImageTarget,
    ImageTargetView, InitRuntime, InitRuntimeView, JavaRuntime, JavaRuntimeView,
    RawHealthcheckRuntime, RawImageDefinition, RawInitRuntime, RawJavaRuntime, RawSource,
    RawSourceArchive, RawToolRuntime, RawVariant, SourceArchive, ToolRuntime, ToolRuntimeView,
};
use crate::sort::{is_stable_order, key_le, key_lt, keys, rearranged, stable_sort, Key, Keyed};
use crate::text::{
    has_prefix, has_suffix, is_prefix, is_suffix, owned, push_str, seq_le, str_eq, str_lt, views,
};

verus! {

broadcast use vstd::string::group_string_axioms;

impl Keyed for ImageTarget {
    /// Targets sort by id.
    open spec fn sort_key(&self) -> Key {
        (0u8, self.id@)
    }

    fn key_before(&self, other: &Self) -> (r: bool) {
        str_lt(self.id.as_str(), other.id.as_str())
    }
}

impl Keyed for ToolRuntime {
    /// Tools sort by role, then by name.
    open spec fn sort_key(&self) -> Key {
        (role_order(self.role), self.name@)
    }

    fn key_before(&self, other: &Self) -> (r: bool) {
        let a = self.role.sort_order();
        let b = other.role.sort_order();
        a < b || (a == b && str_lt(self.name.as_str(), other.name.as_str()))
    }
}

// ---------------------------------------------------------------------------
// Specification
// ---------------------------------------------------------------------------

/// The id of a variant's target: the definition's id for the `default`
/// variant, `<id>-<variant>` otherwise.
pub open spec fn variant_id(def_id: Seq<char>, name: Seq<char>) -> Seq<char> {
    if name == "default"@ {
        def_id
    } else {
        def_id + "-"@ + name
    }
}

/// `Path::join` on `/`-separated paths: an absolute `file` replaces `dir`,
/// otherwise a separator is added unless `dir` is empty or already ends in one.
pub open spec fn join_path(dir: Seq<char>, file: Seq<char>) -> Seq<char> {
    if is_prefix("/"@, file) || dir.len() == 0 {
        file
    } else if is_suffix("/"@, dir) {
        dir + file
    } else {
        dir + "/"@ + file
    }
}

/// A string setting, replaced when the variant overrides it.
pub open spec fn overridden(base: Seq<char>, o: Option<String>) -> Seq<char> {
    match o {
        Some(s) => s@,
        None => base,
    }
}

/// The definition's Java settings with the variant's overrides applied.
pub open spec fn variant_java(base: Option<JavaRuntimeView>, v: RawVariant) -> Option<
    JavaRuntimeView,
> {
    match base {
        None => None,
        Some(j) => Some(
            JavaRuntimeView {
                runtime_packages: match v.runtime_packages {
                    Some(p) => views(p@),
                    None => j.runtime_packages,
                },
                lang: overridden(j.lang, v.lang),
                language: overridden(j.language, v.language),
                lc_all: overridden(j.lc_all, v.lc_all),
                generate_locales: match v.generate_locales {
                    Some(g) => g,
                    None => j.generate_locales,
                },
                ..j
            },
        ),
    }
}

/// The tool declared as `[tools.<name>]`.
pub open spec fn raw_tool_view(entry: (String, RawToolRuntime)) -> ToolRuntimeView {
    let t = entry.1;
    ToolRuntimeView {
        name: entry.0@,
        role: t.role,
        release: t.release@,
        image: opt_view(t.image),
        source_path: t.source_path@,
        target_path: t.target_path@,
        install_packages: views(t.install_packages@),
        strip_components: t.strip_components,
        entrypoint: views(t.entrypoint@),
        archives: raw_archive_views(t.archives@),
    }
}

/// The sort keys of the declared tools: role, then name.
pub open spec fn raw_tool_keys(tools: Seq<(String, RawToolRuntime)>) -> Seq<Key> {
    tools.map_values(|e: (String, RawToolRuntime)| (role_order(e.1.role), e.0@))
}

/// The declared tools in the order `p`.
pub open spec fn tools_in_order(tools: Seq<(String, RawToolRuntime)>, p: Seq<int>) -> Seq<
    ToolRuntimeView,
> {
    Seq::new(p.len(), |k: int| raw_tool_view(tools[p[k]]))
}

/// The optional views of the definition's runtimes.
pub open spec fn raw_init_view(o: Option<RawInitRuntime>) -> Option<InitRuntimeView> {
    match o {
        Some(x) => Some(x@),
        None => None,
    }
}

pub open spec fn raw_healthcheck_view(o: Option<RawHealthcheckRuntime>) -> Option<
    HealthcheckRuntimeView,
> {
    match o {
        Some(x) => Some(x@),
        None => None,
    }
}

pub open spec fn raw_source_view(o: Option<RawSource>) -> Option<ImageSourceView> {
    match o {
        Some(x) => Some(x@),
        None => None,
    }
}

pub open spec fn raw_java_view(o: Option<RawJavaRuntime>) -> Option<JavaRuntimeView> {
    match o {
        Some(x) => Some(x@),
        None => None,
    }
}

/// The target that variant `v` of `def` becomes, with its tools in the order
/// `tools`.
pub open spec fn expected_target(
    def: RawImageDefinition,
    definition_file: Seq<char>,
    context: Seq<char>,
    v: RawVariant,
    tools: Seq<ToolRuntimeView>,
) -> ImageTargetView {
    ImageTargetView {
        schema: def.schema,
        id: variant_id(def.id@, v.name@),
        family: def.family@,
        line: def.line@,
        version: def.version@,
        distro: opt_view(def.distro),
        package: def.package@,
        publish: def.publish,
        status: def.status,
        variant: v.name@,
        context: context,
        dockerfile: join_path(context, v.dockerfile@),
        platforms: views(def.platforms@),
        base_image: v.base_image@,
        builder_image: opt_view(v.builder_image),
        title: v.title@,
        description: v.description@,
        command: views(v.command@),
        canonical_tags: views(v.canonical@),
        alias_tags: views(v.alias@),
        init: raw_init_view(def.init),
        healthcheck: raw_healthcheck_view(def.healthcheck),
        tools: tools,
        source: raw_source_view(def.source),
        java: variant_java(raw_java_view(def.java), v),
        definition_file: definition_file,
    }
}

/// `ts` are the targets of `def`: one per variant, in variant order, every one
/// listing the tools sorted stably by role and then name.
pub open spec fn expands_to(
    def: RawImageDefinition,
    definition_file: Seq<char>,
    context: Seq<char>,
    ts: Seq<ImageTargetView>,
) -> bool {
    &&& ts.len() == def.variants.len()
    &&& exists|p: Seq<int>|
        #![trigger is_stable_order(raw_tool_keys(def.tools@), p)]
        is_stable_order(raw_tool_keys(def.tools@), p) && forall|k: int|
            0 <= k < ts.len() ==> #[trigger] ts[k] == expected_target(
                def,
                definition_file,
                context,
                def.variants@[k],
                tools_in_order(def.tools@, p),
            )
}

/// What each variant makes of its definition: the target's id is the
/// definition's id, suffixed with the variant's name unless it is `default`;
/// its tags are the variant's; and its Java settings are the definition's,
/// with each setting that the variant gives replaced by the variant's value.
pub proof fn lemma_variant_overrides(
    def: RawImageDefinition,
    definition_file: Seq<char>,
    context: Seq<char>,
    ts: Seq<ImageTargetView>,
    k: int,
)
    requires
        expands_to(def, definition_file, context, ts),
        0 <= k < ts.len(),
    ensures
        ({
            let v = def.variants@[k];
            let t = ts[k];
            &&& t.id == (if v.name@ == "default"@ {
                def.id@
            } else {
                def.id@ + "-"@ + v.name@
            })
            &&& t.variant == v.name@
            &&& t.canonical_tags == views(v.canonical@)
            &&& t.alias_tags == views(v.alias@)
            &&& t.package == def.package@
            &&& (def.java is None ==> t.java is None)
            &&& (def.java matches Some(j) ==> t.java matches Some(tj) && {
                &&& tj.lc_all == (match v.lc_all {
                    Some(s) => s@,
                    None => j.lc_all@,
                })
                &&& tj.lang == (match v.lang {
                    Some(s) => s@,
                    None => j.lang@,
                })
                &&& tj.language == (match v.language {
                    Some(s) => s@,
                    None => j.language@,
                })
                &&& tj.generate_locales == (match v.generate_locales {
                    Some(g) => g,
                    None => j.generate_locales,
                })
                &&& tj.runtime_packages == (match v.runtime_packages {
                    Some(p) => views(p@),
                    None => views(j.runtime_packages@),
                })
                &&& tj.java_home == j.java_home@
                &&& tj.builder_packages == views(j.builder_packages@)
                &&& tj.verify_commands == views(j.verify_commands@)
                &&& tj.trim_files == views(j.trim_files@)
            })
        }),
{
    let p = choose|p: Seq<int>|
        #![trigger is_stable_order(raw_tool_keys(def.tools@), p)]
        is_stable_order(raw_tool_keys(def.tools@), p) && forall|m: int|
            0 <= m < ts.len() ==> #[trigger] ts[m] == expected_target(
                def,
                definition_file,
                context,
                def.variants@[m],
                tools_in_order(def.tools@, p),
            );
    assert(ts[k] == expected_target(
        def,
        definition_file,
        context,
        def.variants@[k],
        tools_in_order(def.tools@, p),
    ));
}

// ---------------------------------------------------------------------------
// Conversions with known contents
// ---------------------------------------------------------------------------

fn convert_archives(v: &Vec<RawSourceArchive>) -> (r: Vec<SourceArchive>)
    ensures
        archive_views(r@) == raw_archive_views(v@),
{
    let mut r: Vec<SourceArchive> = Vec::new();
    let mut i: usize = 0;
    while i < v.len()
        invariant
            i <= v.len(),
            r@.len() == i,
            forall|k: int| 0 <= k < i ==> #[trigger] r@[k]@ == v@[k]@,
        decreases v.len() - i,
    {
        let a = &v[i];
        r.push(
            SourceArchive {
                platform: a.platform.clone(),
                url: a.url.clone(),
                sha256: a.sha256.clone(),
            },
        );
        i += 1;
    }
    assert(archive_views(r@) =~= raw_archive_views(v@));
    r
}

fn copy_archives(v: &Vec<SourceArchive>) -> (r: Vec<SourceArchive>)
    ensures
        archive_views(r@) == archive_views(v@),
{
    let mut r: Vec<SourceArchive> = Vec::new();
    let mut i: usize = 0;
    while i < v.len()
        invariant
            i <= v.len(),
            r@.len() == i,
            forall|k: int| 0 <= k < i ==> #[trigger] r@[k]@ == v@[k]@,
        decreases v.len() - i,
    {
        r.push(v[i].copy());
        i += 1;
    }
    assert(archive_views(r@) =~= archive_views(v@));
    r
}

fn convert_tool(name: &String, t: &RawToolRuntime) -> (r: ToolRuntime)
    ensures
        r@ == raw_tool_view((*name, *t)),
{
    ToolRuntime {
        name: name.clone(),
        role: t.role,
        release: t.release.clone(),
        image: copy_opt(&t.image),
        source_path: t.source_path.clone(),
        target_path: t.target_path.clone(),
        install_packages: copy_strings(&t.install_packages),
        strip_components: t.strip_components,
        entrypoint: copy_strings(&t.entrypoint),
        archives: convert_archives(&t.archives),
    }
}

fn copy_tool(t: &ToolRuntime) -> (r: ToolRuntime)
    ensures
        r@ == t@,
{
    ToolRuntime {
        name: t.name.clone(),
        role: t.role,
        release: t.release.clone(),
        image: copy_opt(&t.image),
        source_path: t.source_path.clone(),
        target_path: t.target_path.clone(),
        install_packages: copy_strings(&t.install_packages),
        strip_components: t.strip_components,
        entrypoint: copy_strings(&t.entrypoint),
        archives: copy_archives(&t.archives),
    }
}

fn copy_tools(v: &Vec<ToolRuntime>) -> (r: Vec<ToolRuntime>)
    ensures
        tool_views(r@) == tool_views(v@),
{
    let mut r: Vec<ToolRuntime> = Vec::new();
    let mut i: usize = 0;
    while i < v.len()
        invariant
            i <= v.len(),
            r@.len() == i,
            forall|k: int| 0 <= k < i ==> #[trigger] r@[k]@ == v@[k]@,
        decreases v.len() - i,
    {
        r.push(copy_tool(&v[i]));
        i += 1;
    }
    assert(tool_views(r@) =~= tool_views(v@));
    r
}

/// The declared tools, sorted stably by role and then name.
fn sorted_tools(tools: &Vec<(String, RawToolRuntime)>) -> (r: Vec<ToolRuntime>)
    ensures
        exists|p: Seq<int>|
            #![trigger is_stable_order(raw_tool_keys(tools@), p)]
            is_stable_order(raw_tool_keys(tools@), p) && tool_views(r@) == tools_in_order(
                tools@,
                p,
            ),
{
    let mut converted: Vec<ToolRuntime> = Vec::new();
    let mut i: usize = 0;
    while i < tools.len()
        invariant
            i <= tools.len(),
            converted@.len() == i,
            forall|k: int| 0 <= k < i ==> #[trigger] converted@[k]@ == raw_tool_view(tools@[k]),
        decreases tools.len() - i,
    {
        converted.push(convert_tool(&tools[i].0, &tools[i].1));
        i += 1;
    }
    let ghost input = converted@;
    assert forall|k: int| 0 <= k < input.len() implies #[trigger] keys(input)[k] == raw_tool_keys(
        tools@,
    )[k] by {
        assert(input[k]@ == raw_tool_view(tools@[k]));
        assert(input[k].sort_key() == (role_order(input[k].role), input[k].name@));
    }
    assert(keys(input) =~= raw_tool_keys(tools@));
    let r = stable_sort(converted);
    proof {
        let p = choose|p: Seq<int>| is_stable_order(keys(input), p) && rearranged(input, r@, p);
        assert(tool_views(r@) =~= tools_in_order(tools@, p));
        assert(is_stable_order(raw_tool_keys(tools@), p));
    }
    r
}

fn convert_init(o: &Option<RawInitRuntime>) -> (r: Option<InitRuntime>)
    ensures
        opt_init(r) == raw_init_view(*o),
{
    match o {
        None => None,
        Some(x) => Some(
            InitRuntime {
                provider: x.provider.clone(),
                release: x.release.clone(),
                image: copy_opt(&x.image),
                binary_path: x.binary_path.clone(),
                install_packages: copy_strings(&x.install_packages),
                strip_components: x.strip_components,
                entrypoint: copy_strings(&x.entrypoint),
                archives: convert_archives(&x.archives),
            },
        ),
    }
}

fn convert_healthcheck(o: &Option<RawHealthcheckRuntime>) -> (r: Option<HealthcheckRuntime>)
    ensures
        opt_healthcheck(r) == raw_healthcheck_view(*o),
{
    match o {
        None => None,
        Some(x) => Some(
            HealthcheckRuntime {
                provider: x.provider.clone(),
                release: x.release.clone(),
                image: copy_opt(&x.image),
                binary_path: x.binary_path.clone(),
                install_packages: copy_strings(&x.install_packages),
                strip_components: x.strip_components,
                archives: convert_archives(&x.archives),
            },
        ),
    }
}

fn convert_source(o: &Option<RawSource>) -> (r: Option<ImageSource>)
    ensures
        opt_source(r) == raw_source_view(*o),
{
    match o {
        None => None,
        Some(x) => Some(
            ImageSource {
                provider: x.provider.clone(),
                release: x.release.clone(),
                gpg_key: x.gpg_key.clone(),
                strip_components: x.strip_components,
                archives: convert_archives(&x.archives),
            },
        ),
    }
}

/// The definition's Java settings with the variant's overrides applied.
fn convert_java(o: &Option<RawJavaRuntime>, v: &RawVariant) -> (r: Option<JavaRuntime>)
    ensures
        opt_java(r) == variant_java(raw_java_view(*o), *v),
{
    match o {
        None => None,
        Some(x) => Some(
            JavaRuntime {
                java_home: x.java_home.clone(),
                builder_packages: copy_strings(&x.builder_packages),
                runtime_packages: match &v.runtime_packages {
                    Some(p) => copy_strings(p),
                    None => copy_strings(&x.runtime_packages),
                },
                lang: match &v.lang {
                    Some(s) => s.clone(),
                    None => x.lang.clone(),
                },
                language: match &v.language {
                    Some(s) => s.clone(),
                    None => x.language.clone(),
                },
                lc_all: match &v.lc_all {
                    Some(s) => s.clone(),
                    None => x.lc_all.clone(),
                },
                generate_locales: match v.generate_locales {
                    Some(g) => g,
                    None => x.generate_locales,
                },
                verify_commands: copy_strings(&x.verify_commands),
                trim_files: copy_strings(&x.trim_files),
            },
        ),
    }
}

// ---------------------------------------------------------------------------
// Expansion
// ---------------------------------------------------------------------------

/// `dir.join(file)` for `/`-separated paths.
pub fn join_path_exec(dir: &str, file: &str) -> (r: String)
    ensures
        r@ == join_path(dir@, file@),
{
    if has_prefix(file, "/") || dir.is_empty() {
        return owned(file);
    }
    let mut r = owned(dir);
    if !has_suffix(dir, "/") {
        push_str(&mut r, "/");
    }
    push_str(&mut r, file);
    r
}

/// The id of a variant's target.
pub fn variant_id_exec(def_id: &str, name: &str) -> (r: String)
    ensures
        r@ == variant_id(def_id@, name@),
{
    let mut r = owned(def_id);
    if !str_eq(name, "default") {
        push_str(&mut r, "-");
        push_str(&mut r, name);
    }
    r
}

/// The targets of one definition, one per variant, in variant order.
/// `definition_file` is the path of the `image.toml` and `context` the
/// directory that holds it.
pub fn expand_definition(def: &RawImageDefinition, definition_file: &str, context: &str) -> (r:
    Vec<ImageTarget>)
    ensures
        expands_to(*def, definition_file@, context@, target_views(r@)),
{
    let tools = sorted_tools(&def.tools);
    let ghost p = choose|p: Seq<int>|
        is_stable_order(raw_tool_keys(def.tools@), p) && tool_views(tools@) == tools_in_order(
            def.tools@,
            p,
        );
    let mut r: Vec<ImageTarget> = Vec::new();
    let mut k: usize = 0;
    while k < def.variants.len()
        invariant
            k <= def.variants.len(),
            r@.len() == k,
            is_stable_order(raw_tool_keys(def.tools@), p),
            tool_views(tools@) == tools_in_order(def.tools@, p),
            forall|j: int|
                0 <= j < k ==> #[trigger] r@[j]@ == expected_target(
                    *def,
                    definition_file@,
                    context@,
                    def.variants@[j],
                    tools_in_order(def.tools@, p),
                ),
        decreases def.variants.len() - k,
    {
        let v = &def.variants[k];
        let t = ImageTarget {
            schema: def.schema,
            id: variant_id_exec(def.id.as_str(), v.name.as_str()),
            family: def.family.clone(),
            line: def.line.clone(),
            version: def.version.clone(),
            distro: copy_opt(&def.distro),
            package: def.package.clone(),
            publish: def.publish,
            status: def.status,
            variant: v.name.clone(),
            context: owned(context),
            dockerfile: join_path_exec(context, v.dockerfile.as_str()),
            platforms: copy_strings(&def.platforms),
            base_image: v.base_image.clone(),
            builder_image: copy_opt(&v.builder_image),
            title: v.title.clone(),
            description: v.description.clone(),
            command: copy_strings(&v.command),
            canonical_tags: copy_strings(&v.canonical),
            alias_tags: copy_strings(&v.alias),
            init: convert_init(&def.init),
            healthcheck: convert_healthcheck(&def.healthcheck),
            tools: copy_tools(&tools),
            source: convert_source(&def.source),
            java: convert_java(&def.java, v),
            definition_file: owned(definition_file),
        };
        r.push(t);
        k += 1;
    }
    assert(target_views(r@).len() == def.variants.len());
    r
}

/// The concatenation of a sequence of sequences.
pub open spec fn concat_all<A>(parts: Seq<Seq<A>>) -> Seq<A>
    decreases parts.len(),
{
    if parts.len() == 0 {
        Seq::empty()
    } else {
        concat_all(parts.drop_last()) + parts.last()
    }
}

/// One `image.toml`: its parsed contents, its path and its directory.
pub struct DefinitionFile {
    pub definition: RawImageDefinition,
    pub path: String,
    pub context: String,
}

impl ImageCatalog {
    /// The catalog rooted at `root`, from the definitions found under it (read
    /// and parsed by the caller): every definition expanded, and all targets
    /// sorted stably by id.
    pub fn discover(root: String, definitions: &Vec<DefinitionFile>) -> (r: ImageCatalog)
        ensures
            r.root == root,
            forall|k: int, l: int|
                0 <= k < l < r.targets@.len() ==> seq_le(
                    #[trigger] r.targets@[k].id@,
                    #[trigger] r.targets@[l].id@,
                ),
            exists|parts: Seq<Seq<ImageTarget>>, p: Seq<int>|
                #![trigger is_stable_order(keys(concat_all(parts)), p)]
                parts.len() == definitions.len() && (forall|d: int|
                    0 <= d < definitions.len() ==> expands_to(
                        #[trigger] definitions@[d].definition,
                        definitions@[d].path@,
                        definitions@[d].context@,
                        target_views(parts[d]),
                    )) && is_stable_order(keys(concat_all(parts)), p) && rearranged(
                    concat_all(parts),
                    r.targets@,
                    p,
                ),
    {
        let mut all: Vec<ImageTarget> = Vec::new();
        let ghost mut parts: Seq<Seq<ImageTarget>> = Seq::empty();
        let mut d: usize = 0;
        while d < definitions.len()
            invariant
                d <= definitions.len(),
                parts.len() == d,
                all@ == concat_all(parts),
                forall|e: int|
                    0 <= e < d ==> expands_to(
                        #[trigger] definitions@[e].definition,
                        definitions@[e].path@,
                        definitions@[e].context@,
                        target_views(parts[e]),
                    ),
            decreases definitions.len() - d,
        {
            let f = &definitions[d];
            let mut expanded = expand_definition(&f.definition, f.path.as_str(), f.context.as_str());
            let ghost part = expanded@;
            let ghost before = all@;
            let ghost old_parts = parts;
            all.append(&mut expanded);
            proof {
                parts = parts.push(part);
                assert(parts.drop_last() =~= old_parts);
                assert(all@ =~= before + part);
                assert forall|e: int| 0 <= e < d + 1 implies expands_to(
                    #[trigger] definitions@[e].definition,
                    definitions@[e].path@,
                    definitions@[e].context@,
                    target_views(parts[e]),
                ) by {
                    if e < d {
                        assert(parts[e] == old_parts[e]);
                    }
                }
            }
            d += 1;
        }
        let ghost flat = all@;
        let targets = stable_sort(all);
        proof {
            let p = choose|p: Seq<int>| is_stable_order(keys(flat), p) && rearranged(flat, targets@, p);
            assert(is_stable_order(keys(concat_all(parts)), p));
            assert forall|k: int, l: int| 0 <= k < l < targets@.len() implies seq_le(
                #[trigger] targets@[k].id@,
                #[trigger] targets@[l].id@,
            ) by {
                assert(key_le(keys(flat)[p[k]], keys(flat)[p[l]]));
                assert(targets@[k] == flat[p[k]]);
                assert(targets@[l] == flat[p[l]]);
            }
        }
        ImageCatalog { root, targets }
    }
}

} // verus!
