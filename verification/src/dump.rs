//! Dumps of a model as text.

use crate::booster::Booster;
use crate::call::{ask_once, asks_once, Call, Config, Request, Step};
use crate::ctext::{holds_nul, terminated, with_nul};
use crate::error::{XGBError, XGBResult};
use crate::feature_map::{feature_lines, joined_lines, FeatureMap};
use crate::text::views;
use vstd::prelude::*;

verus! {

broadcast use vstd::string::group_string_axioms;

/// How far a dump has come.
pub enum DumpEvent {
    /// It begins.
    Start,
    /// The feature map was written to a file: the file's path, or what went wrong.
    Saved(Result<String, String>),
    /// The model was dumped, tree by tree.
    Dumped(XGBResult<Vec<String>>),
}

/// What a dump wants next.
pub enum DumpStep<'a> {
    /// A temporary file with this text.
    Save(String),
    /// A call whose reply goes back.
    Perform(Call<'a>),
    /// Nothing: this is what the dump gives.
    Finish(XGBResult<String>),
}

/// Texts, each behind a line end.
pub open spec fn behind_line_ends(texts: Seq<Seq<char>>) -> Seq<char>
    decreases texts.len(),
{
    if texts.len() == 0 {
        Seq::empty()
    } else {
        behind_line_ends(texts.drop_last()) + seq!['\n'] + texts.last()
    }
}

/// Texts as one, with line ends between them.
pub open spec fn between_line_ends(texts: Seq<Seq<char>>) -> Seq<char> {
    if texts.len() == 0 {
        Seq::empty()
    } else {
        texts[0] + behind_line_ends(texts.skip(1))
    }
}

/// The call that dumps a model. Without a file for the feature map its path is empty.
pub open spec fn dump_request(handle: usize, with_statistics: bool, fmap: Seq<char>) -> Request {
    Request::BoosterDumpModelEx {
        booster: handle,
        fmap: terminated(fmap),
        with_stats: if with_statistics {
            1
        } else {
            0
        },
        format: "text\0"@,
    }
}

/// The path of a feature map's file, empty where there is none.
pub open spec fn path_text(path: Option<&str>) -> Seq<char> {
    match path {
        Some(p) => p@,
        None => Seq::empty(),
    }
}

/// The step that ends a dump with the trees' texts as one.
pub open spec fn joins(r: XGBResult<String>, reply: XGBResult<Vec<String>>) -> bool {
    match reply {
        Ok(trees) => r matches Ok(text) && text@ == between_line_ends(views(trees@)),
        Err(e) => r == Err::<String, XGBError>(e),
    }
}

fn join(texts: &Vec<String>) -> (r: String)
    ensures
        r@ == between_line_ends(views(texts@)),
{
    let ghost all = views(texts@);
    if texts.len() == 0 {
        return String::new();
    }
    let mut r: String = texts[0].clone();
    let mut i: usize = 1;
    proof {
        reveal_strlit("\n");
    }
    assert(r@ =~= all[0] + behind_line_ends(all.skip(1).take(0)));
    while i < texts.len()
        invariant
            1 <= i <= texts.len(),
            all == views(texts@),
            "\n"@ == seq!['\n'],
            r@ == all[0] + behind_line_ends(all.skip(1).take(i - 1)),
        decreases texts.len() - i,
    {
        let ghost before = r@;
        r.append("\n");
        r.append(texts[i].as_str());
        assert(all.skip(1).take(i as int).drop_last() =~= all.skip(1).take(i - 1));
        assert(all.skip(1).take(i as int).last() == all[i as int]);
        assert(r@ =~= all[0] + behind_line_ends(all.skip(1).take(i as int)));
        i = i + 1;
    }
    assert(all.skip(1).take(i - 1) =~= all.skip(1));
    r
}

impl Booster {
    /// Dumps the model as one text.
    ///
    /// With a feature map, feature numbers are mapped to the names in it; the map is handed to
    /// the C library in a file.
    pub fn dump_model(
        &self,
        with_statistics: bool,
        feature_map: Option<&FeatureMap>,
        event: DumpEvent,
    ) -> (r: DumpStep<'static>)
        requires
            event matches DumpEvent::Saved(Ok(path)) ==> !holds_nul(path@),
        ensures
            match event {
                DumpEvent::Start => match feature_map {
                    Some(map) => r matches DumpStep::Save(text) && text@ == joined_lines(
                        feature_lines(map@),
                    ),
                    None => r matches DumpStep::Perform(call) && call@ == dump_request(
                        self@.handle,
                        with_statistics,
                        Seq::empty(),
                    ),
                },
                DumpEvent::Saved(Ok(path)) => r matches DumpStep::Perform(call) && call@
                    == dump_request(self@.handle, with_statistics, path@),
                DumpEvent::Saved(Err(message)) => r matches DumpStep::Finish(Err(e)) && e.desc
                    == message,
                DumpEvent::Dumped(reply) => r matches DumpStep::Finish(result) && joins(
                    result,
                    reply,
                ),
            },
    {
        let step: Step<'static, String> = match event {
            DumpEvent::Start => match feature_map {
                Some(map) => {
                    return DumpStep::Save(map.to_text());
                },
                None => self.dump_model_fmap(with_statistics, None, None),
            },
            DumpEvent::Saved(Ok(path)) => self.dump_model_fmap(
                with_statistics,
                Some(path.as_str()),
                None,
            ),
            DumpEvent::Saved(Err(message)) => Step::Finish(Err(XGBError::new(message))),
            DumpEvent::Dumped(reply) => self.dump_model_fmap(with_statistics, None, Some(reply)),
        };
        match step {
            Step::Perform(call) => DumpStep::Perform(call),
            Step::Finish(r) => DumpStep::Finish(r),
        }
    }

    /// Dumps the model, one text per tree.
    pub fn dump_model_vec(&self, with_statistics: bool, reply: Option<XGBResult<Vec<String>>>) -> (r:
        Step<'static, Vec<String>>)
        ensures
            asks_once(r, dump_request(self@.handle, with_statistics, Seq::empty()), reply),
    {
        self.dump_model_fmap_vec(with_statistics, None, reply)
    }

    /// Dumps the model as one text, with the feature map in the file at the path.
    pub fn dump_model_fmap(
        &self,
        with_statistics: bool,
        feature_map_path: Option<&str>,
        reply: Option<XGBResult<Vec<String>>>,
    ) -> (r: Step<'static, String>)
        requires
            !holds_nul(path_text(feature_map_path)),
        ensures
            match reply {
                None => r.performs(
                    dump_request(self@.handle, with_statistics, path_text(feature_map_path)),
                ),
                Some(reply) => r matches Step::Finish(result) && joins(result, reply),
            },
    {
        match self.dump_model_fmap_vec(with_statistics, feature_map_path, reply) {
            Step::Perform(call) => Step::Perform(call),
            Step::Finish(Ok(trees)) => Step::Finish(Ok(join(&trees))),
            Step::Finish(Err(e)) => Step::Finish(Err(e)),
        }
    }

    /// Dumps the model, one text per tree, with the feature map in the file at the path.
    pub fn dump_model_fmap_vec(
        &self,
        with_statistics: bool,
        feature_map_path: Option<&str>,
        reply: Option<XGBResult<Vec<String>>>,
    ) -> (r: Step<'static, Vec<String>>)
        requires
            !holds_nul(path_text(feature_map_path)),
        ensures
            asks_once(
                r,
                dump_request(self@.handle, with_statistics, path_text(feature_map_path)),
                reply,
            ),
    {
        let fmap: String = match feature_map_path {
            Some(path) => with_nul(path),
            None => with_nul(String::new().as_str()),
        };
        ask_once(
            Call::BoosterDumpModelEx {
                booster: self.handle(),
                fmap,
                with_stats: if with_statistics {
                    1
                } else {
                    0
                },
                format: Config::Borrowed("text\0"),
            },
            reply,
        )
    }
}

/// Trees are joined by single line ends: nothing joins to nothing, one text to itself, and two
/// lists to their joined texts with a line end between.
pub proof fn law_dump_joins_trees(a: Seq<Seq<char>>, b: Seq<Seq<char>>, text: Seq<char>)
    ensures
        between_line_ends(Seq::empty()) == Seq::<char>::empty(),
        between_line_ends(seq![text]) == text,
        a.len() > 0 && b.len() > 0 ==> between_line_ends(a + b) == between_line_ends(a)
            + seq!['\n'] + between_line_ends(b),
{
    let none = Seq::<Seq<char>>::empty();
    assert(seq![text].skip(1) =~= none);
    assert(behind_line_ends(none) =~= Seq::empty());
    assert(between_line_ends(seq![text]) =~= text);
    if a.len() > 0 && b.len() > 0 {
        lemma_behind_concat(a.skip(1), b);
        assert((a + b).skip(1) =~= a.skip(1) + b);
        lemma_behind_concat(seq![b[0]], b.skip(1));
        assert(seq![b[0]] + b.skip(1) =~= b);
        assert(seq![b[0]].drop_last() =~= none);
        assert(behind_line_ends(seq![b[0]]) =~= seq!['\n'] + b[0]);
        assert((a + b)[0] == a[0]);
        assert(between_line_ends(a + b) =~= between_line_ends(a) + seq!['\n']
            + between_line_ends(b));
    }
}

proof fn lemma_behind_concat(a: Seq<Seq<char>>, b: Seq<Seq<char>>)
    ensures
        behind_line_ends(a + b) == behind_line_ends(a) + behind_line_ends(b),
    decreases b.len(),
{
    if b.len() == 0 {
        assert(a + b =~= a);
        assert(behind_line_ends(b) =~= Seq::empty());
        assert(behind_line_ends(a) + behind_line_ends(b) =~= behind_line_ends(a));
    } else {
        lemma_behind_concat(a, b.drop_last());
        assert((a + b).drop_last() =~= a + b.drop_last());
        assert((a + b).last() == b.last());
        assert(behind_line_ends(a + b) =~= behind_line_ends(a) + behind_line_ends(b));
    }
}

/// A dump is of the booster, with or without statistics as the caller says, as text, with the
/// feature map at the caller's path.
pub proof fn law_dump_request_tells(handle: usize, with_statistics: bool, fmap: Seq<char>)
    ensures
        dump_request(handle, with_statistics, fmap) matches Request::BoosterDumpModelEx {
            booster,
            fmap: path,
            with_stats,
            format,
        } && booster == handle && path == fmap + seq!['\0'] && (with_stats == 1 <==> with_statistics)
            && (with_stats == 0 <==> !with_statistics) && format == seq!['t', 'e', 'x', 't', '\0'],
{
    reveal_strlit("text\0");
    assert(terminated(fmap) =~= fmap + seq!['\0']);
    assert("text\0"@ =~= seq!['t', 'e', 'x', 't', '\0']);
}

/// A dump that comes back gives all trees or the failure; the path of no file is empty.
pub proof fn law_dump_gives_the_reply(
    r: XGBResult<String>,
    reply: XGBResult<Vec<String>>,
    path: Option<&str>,
)
    requires
        joins(r, reply),
    ensures
        match reply {
            Ok(trees) => r matches Ok(text) && (trees@.len() == 1 ==> text@ == trees@[0]@) && (
            trees@.len() == 2 ==> text@ == trees@[0]@ + seq!['\n'] + trees@[1]@) && (trees@.len()
                == 0 ==> text@.len() == 0),
            Err(e) => r == Err::<String, XGBError>(e),
        },
        path matches Some(p) ==> path_text(path) == p@,
        path is None ==> path_text(path).len() == 0,
{
    if let Ok(trees) = reply {
        let v = views(trees@);
        if v.len() == 1 {
            law_dump_joins_trees(v, v, v[0]);
            assert(v =~= seq![v[0]]);
        } else if v.len() == 2 {
            law_dump_joins_trees(seq![v[0]], seq![v[1]], v[0]);
            law_dump_joins_trees(seq![v[0]], seq![v[1]], v[1]);
            assert(v =~= seq![v[0]] + seq![v[1]]);
        }
    }
}

} // verus!
