use vstd::prelude::*;

pub mod command;
pub mod config;
pub mod copy;
pub mod data;
pub mod hook;
pub mod laws;
pub mod needs;
pub mod slot;
pub mod template;
pub mod text;

use crate::data::DataMap;
use crate::template::TemplateFile;
use crate::template::RenderedFile;
use crate::template::FileError;

verus! {

/// Gets the output name as the final component of the given path text: the
/// last `/`-separated segment that is neither empty nor `.`, or `project`
/// when there is no such segment or when it is `..`.
pub fn get_output_name(out_dir: &str) -> (r: String)
    ensures
        r@ == text::spec_output_name(out_dir@),
{
    text::output_name_of(out_dir)
}

/// Why a project fails its pre-generation check.
#[derive(Debug)]
pub enum CheckError {
    TemplateError(template::ValidateError),
    SlotError(slot::Error),
}

/// Why generation fails.
#[derive(Debug)]
pub enum GenerateError {
    /// The output directory already exists.
    AlreadyExists(String),
    /// The manifest could not be loaded.
    BadConfig(config::Error),
    /// The copy stage failed.
    CopyError(copy::Error),
    /// The template engine could not be set up over the project tree.
    TemplateError(String),
    /// A template file did not render.
    FileError(FileError),
}

/// Why a hook run could not start or finish.
#[derive(Debug)]
pub enum RunHooksError {
    BadConfig(config::Error),
    HookError(hook::Error),
}

/// A loaded project: its validated manifest and the path it was loaded from.
#[derive(Debug)]
pub struct Project {
    pub config: config::Config,
    pub path: String,
}

/// Loads a project from an already-parsed manifest and the path it came
/// from, validating the key namespace.
pub fn load_project(config: config::Config, path: String) -> (r: Result<Project, config::Error>)
    ensures
        r is Ok <==> config::spec_config_valid(config),
        r matches Ok(p) ==> p.config == config && p.path == path,
        r matches Err(e) ==> e is DuplicateKey,
{
    match config.validate() {
        Ok(()) => Ok(Project { config, path }),
        Err(e) => Err(e),
    }
}

/// The context a run renders against: the caller's data with the reserved
/// names set last, so that caller-supplied values cannot shadow them.
pub open spec fn spec_with_reserved(
    data: Map<Seq<char>, Seq<char>>,
    name: Seq<char>,
    output: Seq<char>,
) -> Map<Seq<char>, Seq<char>> {
    data.insert("_project_name"@, name).insert("_output_name"@, output)
}

impl Project {
    /// The project's name: the manifest's, or the stem of the final path
    /// segment where the manifest gives none.
    pub open spec fn spec_name(&self) -> Seq<char> {
        match self.config.name {
            Some(n) => n@,
            None => text::spec_file_stem(text::spec_output_name(self.path@)),
        }
    }

    /// Gets the name of the project, falling back to the directory name.
    pub fn get_name(&self) -> (r: String)
        ensures
            r@ == self.spec_name(),
    {
        match &self.config.name {
            Some(n) => n.clone(),
            None => {
                let seg = text::output_name_of(self.path.as_str());
                text::file_stem_of(seg.as_str())
            },
        }
    }

    /// The caller's data extended with the reserved names.
    fn with_reserved(&self, out_dir: &str, data: &DataMap) -> (r: DataMap)
        requires
            data.wf(),
        ensures
            r@ == spec_with_reserved(data@, self.spec_name(), text::spec_output_name(out_dir@)),
            r.wf(),
    {
        let mut d = data.duplicate();
        d.insert("_project_name".to_owned(), self.get_name());
        d.insert("_output_name".to_owned(), get_output_name(out_dir));
        d
    }

    /// Checks the project before any generation: every template file must
    /// render against blank slot values, and every slot default must fit its
    /// declared type, in that order.
    pub fn check(&self, templates: &Vec<TemplateFile>) -> (r: Result<(), CheckError>)
        requires
            forall|i: int|
                0 <= i < templates@.len() ==> template::env_free(
                    (#[trigger] templates@[i]).contents@,
                ),
        ensures
            r is Ok <==> ((forall|i: int|
                0 <= i < templates@.len() ==> template::render_of(
                    (#[trigger] templates@[i]).contents@,
                    template::spec_validate_ctx(self.config.slots@),
                ) is Some) && (forall|i: int|
                0 <= i < self.config.slots@.len() ==> slot::spec_default_ok(
                    #[trigger] self.config.slots@[i],
                ))),
            (r matches Err(CheckError::TemplateError(_))) <==> (exists|i: int|
                0 <= i < templates@.len() && template::render_of(
                    (#[trigger] templates@[i]).contents@,
                    template::spec_validate_ctx(self.config.slots@),
                ) is None),
    {
        match template::validate(templates, &self.config.slots) {
            Ok(()) => {},
            Err(e) => {
                return Err(CheckError::TemplateError(e));
            },
        }
        match slot::validate(&self.config.slots) {
            Ok(()) => Ok(()),
            Err(e) => Err(CheckError::SlotError(e)),
        }
    }

    /// Generates the filled files from the project's template files: with a
    /// fresh output directory, every template file is rendered against the
    /// data extended with the reserved names; the first file that does not
    /// render fails the generation. The caller writes the returned files and
    /// copies the static tree.
    pub fn generate(
        &self,
        templates: &Vec<TemplateFile>,
        out_dir: &str,
        out_dir_exists: bool,
        data: &DataMap,
    ) -> (r: Result<Vec<RenderedFile>, GenerateError>)
        requires
            data.wf(),
            forall|i: int|
                0 <= i < templates@.len() ==> template::template_env_free(
                    #[trigger] templates@[i],
                ),
        ensures
            out_dir_exists ==> (r matches Err(GenerateError::AlreadyExists(p)) && p@ == out_dir@),
            r matches Ok(v) ==> {
                let ctx = spec_with_reserved(
                    data@,
                    self.spec_name(),
                    text::spec_output_name(out_dir@),
                );
                &&& !out_dir_exists
                &&& v@.len() == templates@.len()
                &&& forall|i: int|
                    0 <= i < templates@.len() ==> template::fill_result_matches(
                        template::spec_fill_file(
                            (#[trigger] templates@[i]).name@,
                            templates@[i].contents@,
                            ctx,
                        ),
                        templates@[i].name@,
                        Result::<RenderedFile, FileError>::Ok(v@[i]),
                    )
            },
            r matches Err(GenerateError::FileError(e)) ==> {
                let ctx = spec_with_reserved(
                    data@,
                    self.spec_name(),
                    text::spec_output_name(out_dir@),
                );
                exists|i: int|
                    {
                        &&& 0 <= i < templates@.len()
                        &&& !(#[trigger] template::spec_fill_file(
                            templates@[i].name@,
                            templates@[i].contents@,
                            ctx,
                        ) is Rendered)
                        &&& (forall|j: int|
                            0 <= j < i ==> template::spec_fill_file(
                                templates@[j].name@,
                                (#[trigger] templates@[j]).contents@,
                                ctx,
                            ) is Rendered)
                        &&& template::fill_result_matches(
                            template::spec_fill_file(
                                templates@[i].name@,
                                templates@[i].contents@,
                                ctx,
                            ),
                            templates@[i].name@,
                            Result::<RenderedFile, FileError>::Err(e),
                        )
                    }
            },
            !out_dir_exists ==> ((r is Ok) <==> (forall|i: int|
                0 <= i < templates@.len() ==> template::spec_fill_file(
                    (#[trigger] templates@[i]).name@,
                    templates@[i].contents@,
                    spec_with_reserved(data@, self.spec_name(), text::spec_output_name(out_dir@)),
                ) is Rendered)),
            r is Err ==> (r matches Err(GenerateError::AlreadyExists(_)) || r matches Err(
                GenerateError::FileError(_),
            )),
    {
        if out_dir_exists {
            return Err(GenerateError::AlreadyExists(out_dir.to_owned()));
        }
        let full = self.with_reserved(out_dir, data);
        let mut results = template::fill(templates, &full);
        let ghost rseq = results@;
        let ghost ctx = full@;
        let mut out: Vec<RenderedFile> = Vec::new();
        let mut i: usize = 0;
        let n = results.len();
        while results.len() > 0
            invariant
                !out_dir_exists,
                ctx == spec_with_reserved(data@, self.spec_name(), text::spec_output_name(out_dir@)),
                n == rseq.len(),
                n == templates@.len(),
                i == n - results@.len(),
                results@ == rseq.skip(i as int),
                out@.len() == i,
                forall|j: int|
                    0 <= j < rseq.len() ==> template::fill_result_matches(
                        template::spec_fill_file(
                            templates@[j].name@,
                            (#[trigger] templates@[j]).contents@,
                            ctx,
                        ),
                        templates@[j].name@,
                        rseq[j],
                    ),
                forall|j: int|
                    0 <= j < i ==> ((#[trigger] rseq[j]) matches Ok(f) && out@[j] == f),
            decreases results@.len(),
        {
            proof {
                assert(results@[0] == rseq[i as int]);
                assert(results@.remove(0) =~= rseq.skip(i as int + 1));
            }
            match results.remove(0) {
                Ok(f) => {
                    out.push(f);
                },
                Err(e) => {
                    proof {
                        assert(template::fill_result_matches(
                            template::spec_fill_file(
                                templates@[i as int].name@,
                                templates@[i as int].contents@,
                                ctx,
                            ),
                            templates@[i as int].name@,
                            Result::<RenderedFile, FileError>::Err(e),
                        ));
                        assert forall|j: int| 0 <= j < i implies template::spec_fill_file(
                            templates@[j].name@,
                            (#[trigger] templates@[j]).contents@,
                            ctx,
                        ) is Rendered by {
                            assert(rseq[j] is Ok);
                        }
                    }
                    return Err(GenerateError::FileError(e));
                },
            }
            i = i + 1;
        }
        proof {
            assert forall|j: int| 0 <= j < templates@.len() implies template::fill_result_matches(
                template::spec_fill_file(
                    templates@[j].name@,
                    (#[trigger] templates@[j]).contents@,
                    ctx,
                ),
                templates@[j].name@,
                Result::<RenderedFile, FileError>::Ok(out@[j]),
            ) by {
                assert(rseq[j] is Ok);
            }
        }
        Ok(out)
    }

    /// Plans the copy of the static source entries into the output directory,
    /// against the data extended with the reserved names.
    pub fn copy_files(
        &self,
        entries: &Vec<copy::SourceEntry>,
        out_dir: &str,
        data: &DataMap,
    ) -> (r: Result<(Vec<copy::CopyAction>, copy::CopyResult), copy::Error>)
        requires
            data.wf(),
            forall|i: int|
                0 <= i < entries@.len() ==> template::env_free(
                    out_dir@ + "/"@ + (#[trigger] entries@[i]).rel_path@,
                ),
        ensures
            ({
                let ctx = spec_with_reserved(
                    data@,
                    self.spec_name(),
                    text::spec_output_name(out_dir@),
                );
                match r {
                    Ok(plan) => copy::spec_copy_model(
                        entries@,
                        out_dir@,
                        text::views_of(self.config.ignore@),
                        ctx,
                    ) matches Ok(m) && plan.0@.len() == m.actions.len() && (forall|j: int|
                        0 <= j < m.actions.len() ==> {
                            let a = #[trigger] plan.0@[j];
                            a.src@ == m.actions[j].0 && a.dest@ == m.actions[j].1 && a.is_dir
                                == m.actions[j].2
                        }) && plan.1.copied_count == m.copied && plan.1.skipped_count == m.skipped,
                    Err(e) => copy::spec_copy_model(
                        entries@,
                        out_dir@,
                        text::views_of(self.config.ignore@),
                        ctx,
                    ) matches Err(p) && e.path@ == p,
                }
            }),
    {
        let full = self.with_reserved(out_dir, data);
        copy::copy(entries, out_dir, &self.config.ignore, &full)
    }

    /// Renders every template file against the data extended with the
    /// reserved names, reporting each file's outcome on its own.
    pub fn render_templates(
        &self,
        templates: &Vec<TemplateFile>,
        out_dir: &str,
        data: &DataMap,
    ) -> (r: Vec<Result<RenderedFile, FileError>>)
        requires
            data.wf(),
            forall|i: int|
                0 <= i < templates@.len() ==> template::template_env_free(
                    #[trigger] templates@[i],
                ),
        ensures
            r@.len() == templates@.len(),
            forall|i: int|
                0 <= i < templates@.len() ==> template::fill_result_matches(
                    template::spec_fill_file(
                        templates@[i].name@,
                        (#[trigger] templates@[i]).contents@,
                        spec_with_reserved(
                            data@,
                            self.spec_name(),
                            text::spec_output_name(out_dir@),
                        ),
                    ),
                    templates@[i].name@,
                    r@[i],
                ),
    {
        let full = self.with_reserved(out_dir, data);
        template::fill(templates, &full)
    }

    /// Runs the project's hooks against the data extended with the reserved
    /// names, returning the full event sequence of the run.
    pub fn run_hooks_stream(
        &self,
        out_dir: &str,
        data: &DataMap,
        run_as_user: Option<users::User>,
    ) -> (r: Result<Vec<hook::HookStreamResult>, RunHooksError>)
        requires
            data.wf(),
            forall|i: int|
                0 <= i < self.config.hooks@.len() ==> (#[trigger] self.config.hooks@[i]).command@.len()
                    >= 1,
            forall|i: int|
                0 <= i < self.config.hooks@.len() ==> hook::hook_env_free(
                    (#[trigger] self.config.hooks@[i])@,
                ),
        ensures
            r matches Ok(events) ==> exists|
                outcomes: Seq<Result<command::CmdOutputView, Seq<char>>>,
            |
                {
                    let m = #[trigger] hook::run_model(
                        self.config.hooks@,
                        self.config.slots@,
                        spec_with_reserved(
                            data@,
                            self.spec_name(),
                            text::spec_output_name(out_dir@),
                        ),
                        outcomes,
                    );
                    &&& m.render_failed is None
                    &&& outcomes.len() == m.used
                    &&& hook::events_match(m.events, events@)
                },
            r matches Err(RunHooksError::HookError(hook::Error::ErrorRenderingTemplate(h, _)))
                ==> exists|outcomes: Seq<Result<command::CmdOutputView, Seq<char>>>|
                {
                    let m = #[trigger] hook::run_model(
                        self.config.hooks@,
                        self.config.slots@,
                        spec_with_reserved(
                            data@,
                            self.spec_name(),
                            text::spec_output_name(out_dir@),
                        ),
                        outcomes,
                    );
                    &&& m.render_failed matches Some(hv) && h@ == hv
                    &&& outcomes.len() == m.used
                },
            r is Err ==> r matches Err(RunHooksError::HookError(_)),
    {
        let full = self.with_reserved(out_dir, data);
        match hook::run_hooks_stream(out_dir, &self.config.hooks, &self.config.slots, &full, run_as_user) {
            Ok(events) => Ok(events),
            Err(e) => Err(RunHooksError::HookError(e)),
        }
    }

    /// Runs the project's hooks as `run_hooks_stream` does and keeps the
    /// per-hook results.
    pub fn run_hooks(
        &self,
        out_dir: &str,
        data: &DataMap,
        run_as_user: Option<users::User>,
    ) -> (r: Result<Vec<hook::HookResult>, hook::Error>)
        requires
            data.wf(),
            forall|i: int|
                0 <= i < self.config.hooks@.len() ==> (#[trigger] self.config.hooks@[i]).command@.len()
                    >= 1,
            forall|i: int|
                0 <= i < self.config.hooks@.len() ==> hook::hook_env_free(
                    (#[trigger] self.config.hooks@[i])@,
                ),
        ensures
            r matches Ok(results) ==> exists|
                outcomes: Seq<Result<command::CmdOutputView, Seq<char>>>,
            |
                {
                    let m = #[trigger] hook::run_model(
                        self.config.hooks@,
                        self.config.slots@,
                        spec_with_reserved(
                            data@,
                            self.spec_name(),
                            text::spec_output_name(out_dir@),
                        ),
                        outcomes,
                    );
                    &&& m.render_failed is None
                    &&& outcomes.len() == m.used
                    &&& hook::results_match(hook::model_dones(m.events), results@)
                },
            r matches Err(hook::Error::ErrorRenderingTemplate(h, _)) ==> exists|
                outcomes: Seq<Result<command::CmdOutputView, Seq<char>>>,
            |
                {
                    let m = #[trigger] hook::run_model(
                        self.config.hooks@,
                        self.config.slots@,
                        spec_with_reserved(
                            data@,
                            self.spec_name(),
                            text::spec_output_name(out_dir@),
                        ),
                        outcomes,
                    );
                    &&& m.render_failed matches Some(hv) && h@ == hv
                    &&& outcomes.len() == m.used
                },
    {
        let full = self.with_reserved(out_dir, data);
        hook::run_hooks(&self.config.hooks, out_dir, &self.config.slots, &full, run_as_user)
    }
}

} // verus!
