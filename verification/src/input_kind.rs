//! What kind of files the calls are taken from.

use vstd::prelude::*;

use crate::terraform::plan::{is_plan, looks_like_plan};
use crate::text::texts;

verus! {

/// A format of files that declare infrastructure.
#[derive(Debug, Clone, Copy, PartialEq, Eq, Structural)]
pub enum IacFormat {
    TerraformPlan,
}

/// The inputs of a run, which are all of one kind.
#[derive(Debug)]
pub enum ClassifiedInputs {
    /// Source files. That they are all in one language is for their reader to check.
    Source(Vec<String>),
    /// Files that declare infrastructure.
    Iac(IacFormat, Vec<String>),
}

/// The inputs of a run are plans and other files.
#[derive(Debug)]
pub struct MixedInputsError {
    pub plans: Vec<String>,
    pub sources: Vec<String>,
}

/// A path on a line of its own, indented.
pub open spec fn path_lines(paths: Seq<Seq<char>>) -> Seq<char>
    decreases paths.len(),
{
    if paths.len() == 0 {
        Seq::empty()
    } else {
        path_lines(paths.drop_last()) + "    "@ + paths.last() + "\n"@
    }
}

/// What a reader is told about inputs of several kinds.
pub open spec fn mixed_message(plans: Seq<Seq<char>>, sources: Seq<Seq<char>>) -> Seq<char> {
    "Cannot mix a Terraform plan with other inputs in one run.\nPass either one or more `terraform show -json` plans, or application source files of a single language — not both.\n"@
        + "  Terraform plans:\n"@ + path_lines(plans) + "  Other inputs:\n"@ + path_lines(sources)
}

fn append_paths(text: &mut String, paths: &Vec<String>)
    ensures
        final(text)@ == old(text)@ + path_lines(texts(paths@)),
{
    let ghost start = text@;
    let ghost s = texts(paths@);
    let mut i: usize = 0;
    assert(s.subrange(0, 0).len() == 0);
    assert(start + path_lines(s.subrange(0, 0)) =~= start);
    while i < paths.len()
        invariant
            i <= paths@.len(),
            s == texts(paths@),
            text@ == start + path_lines(s.subrange(0, i as int)),
        decreases paths@.len() - i,
    {
        let ghost u = s.subrange(0, i + 1);
        assert(u.drop_last() =~= s.subrange(0, i as int));
        assert(u.last() == paths@[i as int]@);
        text.append("    ");
        text.append(paths[i].as_str());
        text.append("\n");
        assert(text@ =~= start + path_lines(u));
        i = i + 1;
    }
    assert(s.subrange(0, s.len() as int) =~= s);
}

impl MixedInputsError {
    /// The text that tells a reader what went wrong.
    pub fn describe(&self) -> (r: String)
        ensures
            r@ == mixed_message(texts(self.plans@), texts(self.sources@)),
    {
        let mut r =
            "Cannot mix a Terraform plan with other inputs in one run.\nPass either one or more `terraform show -json` plans, or application source files of a single language — not both.\n".to_string();
        r.append("  Terraform plans:\n");
        append_paths(&mut r, &self.plans);
        r.append("  Other inputs:\n");
        append_paths(&mut r, &self.sources);
        r
    }
}

/// A file with its bytes, if it could be read.
#[derive(Debug)]
pub struct InputFile {
    pub path: String,
    pub content: Option<Vec<u8>>,
}

/// Whether the file is a plan. One that could not be read is none.
pub open spec fn file_is_plan(f: InputFile) -> bool {
    match f.content {
        Some(bytes) => is_plan(bytes@),
        None => false,
    }
}

/// The paths of the files that are marked as asked for, in their order.
pub open spec fn picked(
    paths: Seq<Seq<char>>,
    plans: Seq<bool>,
    wanted: bool,
) -> Seq<Seq<char>>
    decreases paths.len(),
{
    if paths.len() == 0 {
        Seq::empty()
    } else {
        let rest = picked(paths.drop_last(), plans, wanted);
        if plans[paths.len() - 1] == wanted {
            rest.push(paths.last())
        } else {
            rest
        }
    }
}

/// Whether the result tells of files of which some are plans and some are not: plans alone and
/// other files alone are in order, both together are not. No files count as source files.
pub open spec fn is_classified(
    r: Result<ClassifiedInputs, MixedInputsError>,
    paths: Seq<Seq<char>>,
    plans: Seq<bool>,
) -> bool {
    let ps = picked(paths, plans, true);
    let ss = picked(paths, plans, false);
    if ps.len() == 0 {
        r matches Ok(ClassifiedInputs::Source(v)) && texts(v@) == ss
    } else if ss.len() == 0 {
        r matches Ok(ClassifiedInputs::Iac(f, v)) && f == IacFormat::TerraformPlan && texts(v@)
            == ps
    } else {
        r matches Err(e) && texts(e.plans@) == ps && texts(e.sources@) == ss
    }
}

/// The kind of the files of which it is known whether they are plans.
pub fn classify_files(paths: &Vec<String>, plans: &Vec<bool>) -> (r: Result<
    ClassifiedInputs,
    MixedInputsError,
>)
    requires
        paths@.len() == plans@.len(),
    ensures
        is_classified(r, texts(paths@), plans@),
{
    let ghost s = texts(paths@);
    let ghost p = plans@;
    let mut iac: Vec<String> = Vec::new();
    let mut sources: Vec<String> = Vec::new();
    let mut i: usize = 0;
    assert(s.subrange(0, 0).len() == 0);
    assert(texts(iac@) =~= Seq::<Seq<char>>::empty());
    assert(texts(sources@) =~= Seq::<Seq<char>>::empty());
    while i < paths.len()
        invariant
            i <= paths@.len(),
            paths@.len() == plans@.len(),
            s == texts(paths@),
            p == plans@,
            texts(iac@) == picked(s.subrange(0, i as int), p, true),
            texts(sources@) == picked(s.subrange(0, i as int), p, false),
        decreases paths@.len() - i,
    {
        let ghost u = s.subrange(0, i + 1);
        let ghost a = texts(iac@);
        let ghost b = texts(sources@);
        assert(u.drop_last() =~= s.subrange(0, i as int));
        assert(u.last() == paths@[i as int]@);
        if plans[i] {
            iac.push(paths[i].clone());
            assert(texts(iac@) =~= a.push(paths@[i as int]@));
        } else {
            sources.push(paths[i].clone());
            assert(texts(sources@) =~= b.push(paths@[i as int]@));
        }
        i = i + 1;
    }
    assert(s.subrange(0, s.len() as int) =~= s);
    assert(texts(iac@).len() == iac@.len() && texts(sources@).len() == sources@.len());
    if iac.len() == 0 {
        Ok(ClassifiedInputs::Source(sources))
    } else if sources.len() == 0 {
        Ok(ClassifiedInputs::Iac(IacFormat::TerraformPlan, iac))
    } else {
        Err(MixedInputsError { plans: iac, sources })
    }
}

pub open spec fn file_paths(v: Seq<InputFile>) -> Seq<Seq<char>> {
    v.map_values(|f: InputFile| f.path@)
}

pub open spec fn plan_marks(v: Seq<InputFile>) -> Seq<bool> {
    v.map_values(|f: InputFile| file_is_plan(f))
}

/// The kind of the files. Plans are told by what they hold; all other files count as source files.
pub fn classify_inputs(files: &Vec<InputFile>) -> (r: Result<ClassifiedInputs, MixedInputsError>)
    ensures
        is_classified(r, file_paths(files@), plan_marks(files@)),
{
    let ghost s = files@;
    let mut paths: Vec<String> = Vec::new();
    let mut plans: Vec<bool> = Vec::new();
    let mut i: usize = 0;
    assert(texts(paths@) =~= file_paths(s.subrange(0, 0)));
    assert(plans@ =~= plan_marks(s.subrange(0, 0)));
    while i < files.len()
        invariant
            i <= files@.len(),
            s == files@,
            paths@.len() == i,
            plans@.len() == i,
            texts(paths@) == file_paths(s.subrange(0, i as int)),
            plans@ == plan_marks(s.subrange(0, i as int)),
        decreases files@.len() - i,
    {
        let f = &files[i];
        let ghost a = texts(paths@);
        let ghost b = plans@;
        let mark = match &f.content {
            Some(bytes) => looks_like_plan(bytes.as_slice()),
            None => false,
        };
        paths.push(f.path.clone());
        plans.push(mark);
        proof {
            assert(texts(paths@) =~= a.push(f.path@));
            assert(file_paths(s.subrange(0, i + 1)) =~= a.push(f.path@));
            assert(plan_marks(s.subrange(0, i + 1)) =~= b.push(file_is_plan(*f)));
        }
        i = i + 1;
    }
    assert(s.subrange(0, s.len() as int) =~= s);
    classify_files(&paths, &plans)
}

proof fn lemma_picked_len(paths: Seq<Seq<char>>, plans: Seq<bool>)
    requires
        paths.len() <= plans.len(),
    ensures
        picked(paths, plans, true).len() + picked(paths, plans, false).len() == paths.len(),
    decreases paths.len(),
{
    if paths.len() > 0 {
        lemma_picked_len(paths.drop_last(), plans);
    }
}

/// Every file is either a plan or another file: none gets lost.
pub proof fn no_input_is_lost(paths: Seq<Seq<char>>, plans: Seq<bool>)
    requires
        paths.len() == plans.len(),
    ensures
        picked(paths, plans, true).len() + picked(paths, plans, false).len() == paths.len(),
{
    lemma_picked_len(paths, plans);
}

} // verus!
