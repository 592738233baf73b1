use crate::color::{colors_valid, expand, reports_first_invalid, scheme_vars, InvalidColor};
use crate::model::{Scheme, Template};
use crate::render::{is_first_bad, placeholders_ok, render, rendered_of, RenderError};
use crate::text::{append_str, joined, lower_of, lowercase, same_text, string_of};
use vstd::prelude::*;
use vstd::string::*;

verus! {

/// `s` with every space replaced by an underscore.
pub open spec fn underscored(s: Seq<char>) -> Seq<char> {
    s.map_values(|c: char| if c == ' ' { '_' } else { c })
}

/// The file-name form of a slug: lower-cased, spaces turned to underscores.
pub open spec fn slugified(slug: Seq<char>) -> Seq<char> {
    underscored(lower_of(slug))
}

/// Where a template's output for the scheme with slug `slug` goes.
pub open spec fn output_path_of(t: &Template, slug: Seq<char>) -> Seq<char> {
    t.output@ + "/base16-"@ + slugified(slug) + t.extension@
}

/// Replaces every space of `s` by an underscore.
pub fn underscore_spaces(s: &str) -> (r: String)
    ensures
        r@ == underscored(s@),
{
    let n = s.unicode_len();
    let mut out = String::new();
    let mut i: usize = 0;
    while i < n
        invariant
            n == s@.len(),
            i <= n,
            out@ == underscored(s@.subrange(0, i as int)),
        decreases n - i,
    {
        let c = s.get_char(i);
        let ghost before = out@;
        if c == ' ' {
            proof {
                reveal_strlit("_");
            }
            append_str(&mut out, "_");
            assert(out@ =~= before.push('_'));
        } else {
            let one = s.substring_char(i, i + 1);
            append_str(&mut out, one);
            assert(out@ =~= before.push(c));
        }
        assert(s@.subrange(0, i as int + 1) =~= s@.subrange(0, i as int).push(c));
        assert(underscored(s@.subrange(0, i as int + 1)) =~= underscored(
            s@.subrange(0, i as int),
        ).push(if c == ' ' { '_' } else { c }));
        i = i + 1;
    }
    assert(s@.subrange(0, n as int) =~= s@);
    out
}

/// The file-name form of a scheme slug.
pub fn slugify(slug: &str) -> (r: String)
    ensures
        r@ == slugified(slug@),
{
    let lower = lowercase(slug);
    underscore_spaces(lower.as_str())
}

/// The path of the file that template `t` renders for the scheme with slug
/// `slug`: `<output>/base16-<slugified slug><extension>`.
pub fn output_path(t: &Template, slug: &str) -> (r: String)
    ensures
        r@ == output_path_of(t, slug@),
{
    let mut p = joined(t.output.as_str(), "/base16-");
    let s = slugify(slug);
    append_str(&mut p, s.as_str());
    append_str(&mut p, t.extension.as_str());
    p
}

/// Whether a scheme named `name` passes the filter: no filter, or a filter
/// equal to the name once both are lower-cased.
pub open spec fn is_selected(filter: Option<&str>, name: Seq<char>) -> bool {
    match filter {
        Some(f) => lower_of(f@) == lower_of(name),
        None => true,
    }
}

/// Whether the scheme named `name` passes `filter` (compared case-insensitively).
pub fn selects(filter: Option<&str>, name: &str) -> (r: bool)
    ensures
        r == is_selected(filter, name@),
{
    match filter {
        Some(f) => {
            let a = lowercase(f);
            let b = lowercase(name);
            same_text(a.as_str(), b.as_str())
        },
        None => true,
    }
}

/// The paths written so far in one build, for check-and-insert.
pub struct PathSet {
    pub paths: Vec<String>,
}

impl PathSet {
    /// The set of paths recorded.
    pub open spec fn model(&self) -> Set<Seq<char>> {
        Set::new(|p: Seq<char>| exists|i: int| 0 <= i < self.paths@.len() && self.paths@[i]@ == p)
    }

    pub fn new() -> (r: PathSet)
        ensures
            r.model() == Set::<Seq<char>>::empty(),
    {
        let r = PathSet { paths: Vec::new() };
        assert(r.model() =~= Set::<Seq<char>>::empty());
        r
    }

    /// Whether `p` is recorded.
    pub fn contains(&self, p: &str) -> (r: bool)
        ensures
            r == self.model().contains(p@),
    {
        let mut i: usize = 0;
        while i < self.paths.len()
            invariant
                i <= self.paths@.len(),
                forall|m: int| 0 <= m < i ==> self.paths@[m]@ != p@,
            decreases self.paths@.len() - i,
        {
            if same_text(self.paths[i].as_str(), p) {
                return true;
            }
            i = i + 1;
        }
        false
    }

    /// Records `p`, and tells whether it was recorded already.
    pub fn insert_if_absent(&mut self, p: &str) -> (was_present: bool)
        ensures
            was_present == old(self).model().contains(p@),
            final(self).model() == old(self).model().insert(p@),
    {
        let was_present = self.contains(p);
        if !was_present {
            let ghost before = self.model();
            let ghost old_paths = self.paths@;
            self.paths.push(string_of(p));
            assert forall|q: Seq<char>| #[trigger]
                self.model().contains(q) == before.insert(p@).contains(q) by {
                if before.contains(q) {
                    let i = choose|i: int| 0 <= i < old_paths.len() && old_paths[i]@ == q;
                    assert(self.paths@[i] == old_paths[i]);
                }
                if q == p@ {
                    assert(self.paths@[old_paths.len() as int]@ == p@);
                }
                if self.model().contains(q) {
                    let i = choose|i: int| 0 <= i < self.paths@.len() && self.paths@[i]@ == q;
                    if i < old_paths.len() {
                        assert(self.paths@[i] == old_paths[i]);
                    }
                }
            }
            assert(self.model() =~= before.insert(p@));
        } else {
            assert(self.model() =~= self.model().insert(p@));
        }
        was_present
    }
}

/// Why one (scheme, template) pair produced no output.
pub enum PairError {
    Color(InvalidColor),
    Render(RenderError),
}

/// The work for one (scheme, template) pair: the directory to make, the file
/// to write, whether an earlier pair of this build wrote the same path, and
/// the rendered bytes.
pub struct Job {
    pub scheme: usize,
    pub template: usize,
    pub directory: String,
    pub path: String,
    pub overwrites: bool,
    pub output: Result<Vec<u8>, PairError>,
}

/// What rendering template `t` for scheme `s` yields.
pub open spec fn output_ok(out: Result<Vec<u8>, PairError>, s: &Scheme, t: &Template) -> bool {
    match out {
        Ok(b) => colors_valid(s.colors@) && placeholders_ok(t.body@) && b@ == rendered_of(
            t.body@,
            scheme_vars(s),
        ),
        Err(PairError::Color(e)) => reports_first_invalid(e, s),
        Err(PairError::Render(e)) => colors_valid(s.colors@) && is_first_bad(
            t.body@,
            e.position as int,
        ),
    }
}

/// `job` is the work for scheme `i` and template `j`, apart from its
/// overwrite flag.
pub open spec fn job_for(job: Job, schemes: Seq<Scheme>, templates: Seq<Template>, i: int, j: int) -> bool {
    0 <= i < schemes.len() && 0 <= j < templates.len() && job.scheme == i && job.template == j
        && job.directory@ == templates[j].output@ && job.path@ == output_path_of(
        &templates[j],
        schemes[i].slug@,
    ) && output_ok(job.output, &schemes[i], &templates[j])
}

/// Job `k` writes a path that an earlier job writes too.
pub open spec fn written_before(jobs: Seq<Job>, k: int) -> bool {
    exists|m: int| 0 <= m < k && jobs[m].path@ == jobs[k].path@
}

/// Every job's overwrite flag tells whether an earlier job has its path.
pub open spec fn flags_ok(jobs: Seq<Job>) -> bool {
    forall|k: int| 0 <= k < jobs.len() ==> #[trigger] jobs[k].overwrites == written_before(jobs, k)
}

/// The indices of the schemes that pass the filter, in order.
pub open spec fn selected_indices(schemes: Seq<Scheme>, filter: Option<&str>) -> Seq<int>
    decreases schemes.len(),
{
    if schemes.len() == 0 {
        seq![]
    } else {
        let rest = selected_indices(schemes.drop_last(), filter);
        if is_selected(filter, schemes.last().name@) {
            rest.push(schemes.len() - 1)
        } else {
            rest
        }
    }
}

/// Scheme `i` paired with each of `n` templates.
pub open spec fn row(i: int, n: nat) -> Seq<(int, int)> {
    Seq::new(n, |j: int| (i, j))
}

/// The (scheme, template) pairs of a build, scheme by scheme.
pub open spec fn pairs(sel: Seq<int>, n: nat) -> Seq<(int, int)>
    decreases sel.len(),
{
    if sel.len() == 0 {
        seq![]
    } else {
        pairs(sel.drop_last(), n) + row(sel.last(), n)
    }
}

/// Plans the build for one pair: its paths, whether the path was written
/// before (recorded in `produced`), and the rendered output.
fn plan_pair(
    schemes: &Vec<Scheme>,
    templates: &Vec<Template>,
    i: usize,
    j: usize,
    produced: &mut PathSet,
) -> (job: Job)
    requires
        i < schemes@.len(),
        j < templates@.len(),
    ensures
        job_for(job, schemes@, templates@, i as int, j as int),
        job.overwrites == old(produced).model().contains(job.path@),
        final(produced).model() == old(produced).model().insert(job.path@),
{
    let s = &schemes[i];
    let t = &templates[j];
    let path = output_path(t, s.slug.as_str());
    let overwrites = produced.insert_if_absent(path.as_str());
    let output = match expand(s) {
        Err(e) => Err(PairError::Color(e)),
        Ok(vars) => match render(t.body.as_str(), &vars) {
            Ok(b) => Ok(b),
            Err(e) => Err(PairError::Render(e)),
        },
    };
    Job { scheme: i, template: j, directory: string_of(t.output.as_str()), path, overwrites, output }
}

/// The (scheme, template) pairs that a build over these inputs goes through.
pub open spec fn build_pairs(schemes: Seq<Scheme>, n: nat, filter: Option<&str>) -> Seq<(int, int)> {
    pairs(selected_indices(schemes, filter), n)
}

/// Job `k` is the work for pair `ps[k]`, for every `k`.
pub open spec fn jobs_match(
    jobs: Seq<Job>,
    schemes: Seq<Scheme>,
    templates: Seq<Template>,
    ps: Seq<(int, int)>,
) -> bool {
    jobs.len() == ps.len() && forall|k: int|
        0 <= k < jobs.len() ==> #[trigger] job_for(jobs[k], schemes, templates, ps[k].0, ps[k].1)
}

proof fn lemma_push_flags(jobs: Seq<Job>, job: Job)
    requires
        flags_ok(jobs),
        job.overwrites == exists|m: int| 0 <= m < jobs.len() && jobs[m].path@ == job.path@,
    ensures
        flags_ok(jobs.push(job)),
{
    let all = jobs.push(job);
    assert forall|k: int| 0 <= k < all.len() implies #[trigger] all[k].overwrites == written_before(
        all,
        k,
    ) by {
        if k < jobs.len() {
            assert(all[k] == jobs[k]);
            assert(jobs[k].overwrites == written_before(jobs, k));
            if written_before(jobs, k) {
                let m = choose|m: int| 0 <= m < k && jobs[m].path@ == jobs[k].path@;
                assert(all[m] == jobs[m]);
            }
            if written_before(all, k) {
                let m = choose|m: int| 0 <= m < k && all[m].path@ == all[k].path@;
                assert(all[m] == jobs[m]);
            }
        } else {
            if job.overwrites {
                let m = choose|m: int| 0 <= m < jobs.len() && jobs[m].path@ == job.path@;
                assert(all[m] == jobs[m]);
            }
            if written_before(all, k) {
                let m = choose|m: int| 0 <= m < k && all[m].path@ == all[k].path@;
                assert(all[m] == jobs[m]);
            }
        }
    }
}

/// Plans a whole build: one job for each scheme that passes `filter` and each
/// template, scheme by scheme and in template order. A job's overwrite flag
/// is set exactly when an earlier job of the build writes the same path.
pub fn plan(schemes: &Vec<Scheme>, templates: &Vec<Template>, filter: Option<&str>) -> (jobs: Vec<
    Job,
>)
    ensures
        jobs_match(jobs@, schemes@, templates@, build_pairs(schemes@, templates@.len(), filter)),
        flags_ok(jobs@),
{
    let ghost nt = templates@.len();
    let mut produced = PathSet::new();
    let mut jobs: Vec<Job> = Vec::new();
    let mut i: usize = 0;
    while i < schemes.len()
        invariant
            i <= schemes@.len(),
            nt == templates@.len(),
            jobs_match(
                jobs@,
                schemes@,
                templates@,
                pairs(selected_indices(schemes@.take(i as int), filter), nt),
            ),
            flags_ok(jobs@),
            forall|q: Seq<char>|
                produced.model().contains(q) <==> exists|m: int|
                    0 <= m < jobs@.len() && #[trigger] jobs@[m].path@ == q,
        decreases schemes@.len() - i,
    {
        let ghost sel = selected_indices(schemes@.take(i as int), filter);
        let ghost done = pairs(sel, nt);
        assert(schemes@.take(i as int + 1).drop_last() =~= schemes@.take(i as int));
        if selects(filter, schemes[i].name.as_str()) {
            let ghost target = done + row(i as int, nt);
            let mut j: usize = 0;
            while j < templates.len()
                invariant
                    i < schemes@.len(),
                    j <= templates@.len(),
                    nt == templates@.len(),
                    target == done + row(i as int, nt),
                    done.len() + nt == target.len(),
                    jobs@.len() == done.len() + j,
                    forall|k: int|
                        0 <= k < jobs@.len() ==> #[trigger] job_for(
                            jobs@[k],
                            schemes@,
                            templates@,
                            target[k].0,
                            target[k].1,
                        ),
                    flags_ok(jobs@),
                    forall|q: Seq<char>|
                        produced.model().contains(q) <==> exists|m: int|
                            0 <= m < jobs@.len() && #[trigger] jobs@[m].path@ == q,
                decreases templates@.len() - j,
            {
                let ghost before = jobs@;
                let ghost known = produced.model();
                let job = plan_pair(schemes, templates, i, j, &mut produced);
                proof {
                    lemma_push_flags(before, job);
                }
                jobs.push(job);
                assert(jobs@[jobs@.len() - 1] == job);
                assert(target[done.len() + j] == (i as int, j as int));
                assert forall|k: int| 0 <= k < jobs@.len() implies #[trigger] job_for(
                    jobs@[k],
                    schemes@,
                    templates@,
                    target[k].0,
                    target[k].1,
                ) by {
                    if k < before.len() {
                        assert(jobs@[k] == before[k]);
                    }
                }
                assert forall|q: Seq<char>|
                    produced.model().contains(q) <==> exists|m: int|
                        0 <= m < jobs@.len() && #[trigger] jobs@[m].path@ == q by {
                    if known.contains(q) {
                        let m = choose|m: int| 0 <= m < before.len() && before[m].path@ == q;
                        assert(jobs@[m] == before[m]);
                    }
                    if exists|m: int| 0 <= m < jobs@.len() && #[trigger] jobs@[m].path@ == q {
                        let m = choose|m: int| 0 <= m < jobs@.len() && jobs@[m].path@ == q;
                        if m < before.len() {
                            assert(jobs@[m] == before[m]);
                        }
                    }
                }
                j = j + 1;
            }
            assert(sel.push(i as int).drop_last() =~= sel);
            assert(selected_indices(schemes@.take(i as int + 1), filter) == sel.push(i as int));
        } else {
            assert(selected_indices(schemes@.take(i as int + 1), filter) == sel);
        }
        i = i + 1;
    }
    assert(schemes@.take(schemes@.len() as int) =~= schemes@);
    jobs
}

/// The files a build writes, in order: each job with rendered output writes
/// its bytes to its path.
pub open spec fn writes_of(jobs: Seq<Job>) -> Seq<(Seq<char>, Seq<u8>)>
    decreases jobs.len(),
{
    if jobs.len() == 0 {
        seq![]
    } else {
        let rest = writes_of(jobs.drop_last());
        match jobs.last().output {
            Ok(b) => rest.push((jobs.last().path@, b@)),
            Err(_) => rest,
        }
    }
}

/// The files on disk after `w` is written in order over `d`.
pub open spec fn disk_after(d: Map<Seq<char>, Seq<u8>>, w: Seq<(Seq<char>, Seq<u8>)>) -> Map<
    Seq<char>,
    Seq<u8>,
>
    decreases w.len(),
{
    if w.len() == 0 {
        d
    } else {
        disk_after(d, w.drop_last()).insert(w.last().0, w.last().1)
    }
}

proof fn lemma_disk_split(d: Map<Seq<char>, Seq<u8>>, w: Seq<(Seq<char>, Seq<u8>)>)
    ensures
        disk_after(d, w) == d.union_prefer_right(disk_after(Map::empty(), w)),
    decreases w.len(),
{
    if w.len() == 0 {
        assert(d.union_prefer_right(Map::empty()) =~= d);
    } else {
        lemma_disk_split(d, w.drop_last());
        assert(disk_after(d, w) =~= d.union_prefer_right(disk_after(Map::empty(), w)));
    }
}

/// Writing the same files a second time over the result of the first leaves
/// the disk as it was after the first.
pub proof fn lemma_rewrite_is_stable(d: Map<Seq<char>, Seq<u8>>, w: Seq<(Seq<char>, Seq<u8>)>)
    ensures
        disk_after(disk_after(d, w), w) == disk_after(d, w),
{
    let e = disk_after(Map::empty(), w);
    lemma_disk_split(d, w);
    lemma_disk_split(disk_after(d, w), w);
    assert(d.union_prefer_right(e).union_prefer_right(e) =~= d.union_prefer_right(e));
}

proof fn lemma_ok_iff_valid(out: Result<Vec<u8>, PairError>, s: &Scheme, t: &Template)
    requires
        output_ok(out, s, t),
    ensures
        out is Ok <==> colors_valid(s.colors@) && placeholders_ok(t.body@),
{
    match out {
        Ok(_) => {},
        Err(PairError::Color(e)) => {
            let k = choose|k: int|
                crate::color::is_first_invalid(s.colors@, k) && e.slot@ == s.colors@[k].0@
                    && e.value@ == s.colors@[k].1@ && e.slug@ == s.slug@;
            assert(!crate::color::is_hex_color(s.colors@[k].1@));
        },
        Err(PairError::Render(e)) => {
            assert(crate::render::opens_at(t.body@, e.position as int));
        },
    }
}

proof fn lemma_same_writes(
    j1: Seq<Job>,
    j2: Seq<Job>,
    schemes: Seq<Scheme>,
    templates: Seq<Template>,
    ps: Seq<(int, int)>,
)
    requires
        jobs_match(j1, schemes, templates, ps),
        jobs_match(j2, schemes, templates, ps),
    ensures
        writes_of(j1) == writes_of(j2),
    decreases j1.len(),
{
    if j1.len() > 0 {
        let n = j1.len() - 1;
        let p = ps.drop_last();
        assert forall|k: int| 0 <= k < n implies #[trigger] job_for(
            j1.drop_last()[k],
            schemes,
            templates,
            p[k].0,
            p[k].1,
        ) && job_for(j2.drop_last()[k], schemes, templates, p[k].0, p[k].1) by {
            assert(job_for(j1[k], schemes, templates, ps[k].0, ps[k].1));
            assert(job_for(j2[k], schemes, templates, ps[k].0, ps[k].1));
        }
        lemma_same_writes(j1.drop_last(), j2.drop_last(), schemes, templates, p);
        assert(job_for(j1[n], schemes, templates, ps[n].0, ps[n].1));
        assert(job_for(j2[n], schemes, templates, ps[n].0, ps[n].1));
        let s = &schemes[ps[n].0];
        let t = &templates[ps[n].1];
        lemma_ok_iff_valid(j1[n].output, s, t);
        lemma_ok_iff_valid(j2[n].output, s, t);
    }
}

/// A build is idempotent: two runs over the same schemes, templates and
/// filter write the same files, and the second run leaves every file as the
/// first left it.
pub proof fn lemma_build_idempotent(
    schemes: Seq<Scheme>,
    templates: Seq<Template>,
    filter: Option<&str>,
    first: Seq<Job>,
    second: Seq<Job>,
    d: Map<Seq<char>, Seq<u8>>,
)
    requires
        jobs_match(first, schemes, templates, build_pairs(schemes, templates.len(), filter)),
        jobs_match(second, schemes, templates, build_pairs(schemes, templates.len(), filter)),
    ensures
        writes_of(first) == writes_of(second),
        disk_after(disk_after(d, writes_of(first)), writes_of(second)) == disk_after(
            d,
            writes_of(first),
        ),
{
    lemma_same_writes(first, second, schemes, templates, build_pairs(schemes, templates.len(), filter));
    lemma_rewrite_is_stable(d, writes_of(first));
}

proof fn lemma_last_write_wins(jobs: Seq<Job>, b: int, d: Map<Seq<char>, Seq<u8>>)
    requires
        0 <= b < jobs.len(),
        jobs[b].output is Ok,
        forall|m: int| b < m < jobs.len() ==> #[trigger] jobs[m].path@ != jobs[b].path@,
    ensures
        disk_after(d, writes_of(jobs)).contains_key(jobs[b].path@),
        disk_after(d, writes_of(jobs))[jobs[b].path@] == jobs[b].output->Ok_0@,
    decreases jobs.len(),
{
    let n = jobs.len() - 1;
    let rest = jobs.drop_last();
    let w = writes_of(jobs);
    match jobs[n].output {
        Ok(bytes) => {
            assert(w == writes_of(rest).push((jobs[n].path@, bytes@)));
            assert(w.drop_last() =~= writes_of(rest));
            assert(disk_after(d, w) == disk_after(d, writes_of(rest)).insert(
                jobs[n].path@,
                bytes@,
            ));
        },
        Err(_) => {
            assert(w == writes_of(rest));
        },
    }
    if b < n {
        assert(rest[b] == jobs[b]);
        assert forall|m: int| b < m < rest.len() implies #[trigger] rest[m].path@ != rest[b].path@ by {
            assert(rest[m] == jobs[m]);
        }
        lemma_last_write_wins(rest, b, d);
        assert(jobs[n].path@ != jobs[b].path@);
    }
}

/// Two jobs of a build that write the same path, and no other job with that
/// path: only the later one is flagged as overwriting, and when both render,
/// the file holds the later job's bytes.
pub proof fn lemma_colliding_paths(jobs: Seq<Job>, a: int, b: int, d: Map<Seq<char>, Seq<u8>>)
    requires
        flags_ok(jobs),
        0 <= a < b < jobs.len(),
        jobs[a].path@ == jobs[b].path@,
        forall|k: int| 0 <= k < jobs.len() && k != a && k != b ==> #[trigger] jobs[k].path@
            != jobs[a].path@,
    ensures
        !jobs[a].overwrites,
        jobs[b].overwrites,
        forall|k: int| 0 <= k < jobs.len() && jobs[k].path@ == jobs[a].path@ ==> (
        #[trigger] jobs[k].overwrites <==> k == b),
        jobs[b].output is Ok ==> disk_after(d, writes_of(jobs))[jobs[b].path@]
            == jobs[b].output->Ok_0@,
{
    assert(jobs[b].overwrites == written_before(jobs, b));
    assert(jobs[a].overwrites == written_before(jobs, a));
    if written_before(jobs, a) {
        let m = choose|m: int| 0 <= m < a && jobs[m].path@ == jobs[a].path@;
        assert(jobs[m].path@ != jobs[a].path@);
    }
    if jobs[b].output is Ok {
        assert forall|m: int| b < m < jobs.len() implies #[trigger] jobs[m].path@
            != jobs[b].path@ by {
            assert(jobs[m].path@ != jobs[a].path@);
        }
        lemma_last_write_wins(jobs, b, d);
    }
}

/// A filter that no scheme's name matches yields a build with no jobs.
pub proof fn lemma_unmatched_filter(schemes: Seq<Scheme>, n: nat, filter: Option<&str>)
    requires
        forall|i: int| 0 <= i < schemes.len() ==> !is_selected(filter, #[trigger] schemes[i].name@),
    ensures
        build_pairs(schemes, n, filter).len() == 0,
    decreases schemes.len(),
{
    if schemes.len() > 0 {
        let rest = schemes.drop_last();
        assert forall|i: int| 0 <= i < rest.len() implies !is_selected(filter, #[trigger] rest[i].name@) by {
            assert(rest[i] == schemes[i]);
        }
        lemma_unmatched_filter(rest, n, filter);
        assert(!is_selected(filter, schemes[schemes.len() - 1].name@));
    }
}

/// Some job has number `g`.
pub open spec fn number_used(ids: Seq<usize>, g: int) -> bool {
    exists|k: int| 0 <= k < ids.len() && ids[k] == g
}

/// Numbers the distinct output paths of `jobs` in order of first use, and
/// gives each job the number of its path: two jobs get the same number
/// exactly when they write the same path. Jobs of one number must be written
/// one after another, in job order; jobs of different numbers are independent.
pub fn path_groups(jobs: &Vec<Job>) -> (r: (Vec<usize>, usize))
    ensures
        r.0@.len() == jobs@.len(),
        r.1 <= jobs@.len(),
        forall|k: int| 0 <= k < jobs@.len() ==> #[trigger] r.0@[k] < r.1,
        forall|g: int| 0 <= g < r.1 ==> #[trigger] number_used(r.0@, g),
        forall|k: int, m: int|
            0 <= k < jobs@.len() && 0 <= m < jobs@.len() ==> (#[trigger] r.0@[k] == #[trigger] r.0@[m]
                <==> jobs@[k].path@ == jobs@[m].path@),
{
    let mut ids: Vec<usize> = Vec::new();
    let mut leaders: Vec<usize> = Vec::new();
    let mut k: usize = 0;
    while k < jobs.len()
        invariant
            k <= jobs@.len(),
            ids@.len() == k,
            leaders@.len() <= k,
            forall|g: int| 0 <= g < leaders@.len() ==> #[trigger] leaders@[g] < k && ids@[leaders@[g] as int] == g,
            forall|j: int|
                0 <= j < k ==> #[trigger] ids@[j] < leaders@.len() && jobs@[j].path@
                    == jobs@[leaders@[ids@[j] as int] as int].path@,
            forall|g1: int, g2: int|
                0 <= g1 < leaders@.len() && 0 <= g2 < leaders@.len() && g1 != g2 ==> jobs@[#[trigger] leaders@[g1] as int].path@
                    != jobs@[#[trigger] leaders@[g2] as int].path@,
        decreases jobs@.len() - k,
    {
        let mut g: usize = 0;
        let mut found = false;
        while !found && g < leaders.len()
            invariant
                g <= leaders@.len(),
                k < jobs@.len(),
                forall|h: int| 0 <= h < leaders@.len() ==> #[trigger] leaders@[h] < k,
                found ==> g < leaders@.len() && jobs@[leaders@[g as int] as int].path@
                    == jobs@[k as int].path@,
                !found ==> forall|h: int|
                    0 <= h < g ==> jobs@[#[trigger] leaders@[h] as int].path@ != jobs@[k as int].path@,
            decreases leaders@.len() - g + (if found { 0int } else { 1int }),
        {
            if same_text(jobs[leaders[g]].path.as_str(), jobs[k].path.as_str()) {
                found = true;
            } else {
                g = g + 1;
            }
        }
        let ghost old_ids = ids@;
        let ghost old_leaders = leaders@;
        if found {
            ids.push(g);
            assert forall|j: int| 0 <= j < k + 1 implies #[trigger] ids@[j] < leaders@.len()
                && jobs@[j].path@ == jobs@[leaders@[ids@[j] as int] as int].path@ by {
                if j < k {
                    assert(ids@[j] == old_ids[j]);
                }
            }
            assert forall|h: int| 0 <= h < leaders@.len() implies #[trigger] leaders@[h] < k + 1
                && ids@[leaders@[h] as int] == h by {
                assert(ids@[leaders@[h] as int] == old_ids[leaders@[h] as int]);
            }
        } else {
            ids.push(leaders.len());
            leaders.push(k);
            assert forall|j: int| 0 <= j < k + 1 implies #[trigger] ids@[j] < leaders@.len()
                && jobs@[j].path@ == jobs@[leaders@[ids@[j] as int] as int].path@ by {
                if j < k {
                    assert(ids@[j] == old_ids[j]);
                    assert(leaders@[ids@[j] as int] == old_leaders[ids@[j] as int]);
                }
            }
            assert forall|h: int| 0 <= h < leaders@.len() implies #[trigger] leaders@[h] < k + 1
                && ids@[leaders@[h] as int] == h by {
                if h < old_leaders.len() {
                    assert(leaders@[h] == old_leaders[h]);
                    assert(ids@[leaders@[h] as int] == old_ids[leaders@[h] as int]);
                }
            }
            assert forall|g1: int, g2: int|
                0 <= g1 < leaders@.len() && 0 <= g2 < leaders@.len() && g1 != g2 implies jobs@[#[trigger] leaders@[g1] as int].path@
                    != jobs@[#[trigger] leaders@[g2] as int].path@ by {
                if g1 < old_leaders.len() {
                    assert(leaders@[g1] == old_leaders[g1]);
                }
                if g2 < old_leaders.len() {
                    assert(leaders@[g2] == old_leaders[g2]);
                }
            }
        }
        k = k + 1;
    }
    assert forall|g: int| 0 <= g < leaders@.len() implies #[trigger] number_used(ids@, g) by {
        assert(ids@[leaders@[g] as int] == g);
    }
    assert forall|a: int, b: int|
        0 <= a < jobs@.len() && 0 <= b < jobs@.len() implies (#[trigger] ids@[a] == #[trigger] ids@[b]
            <==> jobs@[a].path@ == jobs@[b].path@) by {
        if jobs@[a].path@ == jobs@[b].path@ && ids@[a] != ids@[b] {
            assert(jobs@[leaders@[ids@[a] as int] as int].path@ != jobs@[leaders@[ids@[b] as int] as int].path@);
        }
    }
    (ids, leaders.len())
}

} // verus!
