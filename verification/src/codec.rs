//! The codec between the command data model and the configuration document's
//! shapes.
//!
//! A configuration document is an ordered list of nodes, one per batch. The
//! canonical shapes mirror the data model's tagged unions: a batch is
//! `{Single: <command>}` or `{Parallel: [<command>...]}`, and a command is
//! `{Command: <text>}` or `{Execution: {command, working_directory?, args?,
//! spawn_only?}}`. Two shorthands are also read: a bare string is a single
//! shell line, and a bare list is a parallel group. Missing optional fields
//! default to no working directory, an empty argument list and
//! `spawn_only = false`; within one record the first occurrence of a field
//! name is used and unknown names are ignored. The document's on-disk syntax
//! is the unverified caller's concern: it hands over and takes back [`Doc`]
//! trees.

use vstd::prelude::*;
use vstd::string::StringExecFns;
use crate::command::{
    Batch, BatchModel, CmdModel, CommandSpec, batches_view, cmds_view, strs_view,
};

verus! {

/// One named field of a document record.
#[derive(Debug, PartialEq, Eq)]
pub struct Field {
    pub name: String,
    pub value: Doc,
}

/// One node of a configuration document: text, a truth value, a list of
/// nodes, or a record of named fields.
#[derive(Debug, PartialEq, Eq)]
pub enum Doc {
    Text(String),
    Flag(bool),
    Items(Vec<Doc>),
    Fields(Vec<Field>),
}

/// The abstract value of a [`Field`].
pub struct FieldModel {
    pub name: Seq<char>,
    pub value: DocModel,
}

/// The abstract value of a [`Doc`].
pub enum DocModel {
    Text(Seq<char>),
    Flag(bool),
    Items(Seq<DocModel>),
    Fields(Seq<FieldModel>),
}

#[via_fn]
proof fn doc_model_decreases(d: Doc) {
    match d {
        Doc::Items(items) => {
            assert(decreases_to!(d => items));
            assert(decreases_to!(items => items@));
        },
        Doc::Fields(fields) => {
            assert(decreases_to!(d => fields));
            assert(decreases_to!(fields => fields@));
        },
        _ => {
        },
    }
}

/// The abstract value of a document node.
pub open spec fn doc_model(d: Doc) -> DocModel
    decreases d, 0int,
    via doc_model_decreases
{
    match d {
        Doc::Text(s) => DocModel::Text(s@),
        Doc::Flag(b) => DocModel::Flag(b),
        Doc::Items(items) => DocModel::Items(docs_models(items@)),
        Doc::Fields(fields) => DocModel::Fields(fields_models(fields@)),
    }
}

#[via_fn]
proof fn docs_models_decreases(s: Seq<Doc>) {
    if s.len() != 0 {
        vstd::seq::axiom_seq_subrange_decreases(s, 0, s.len() - 1);
        assert(decreases_to!(s => s[s.len() - 1]));
    }
}

/// The abstract values of a sequence of document nodes.
pub open spec fn docs_models(s: Seq<Doc>) -> Seq<DocModel>
    decreases s, 1int,
    via docs_models_decreases
{
    if s.len() == 0 {
        Seq::<DocModel>::empty()
    } else {
        docs_models(s.drop_last()).push(doc_model(s.last()))
    }
}

#[via_fn]
proof fn fields_models_decreases(s: Seq<Field>) {
    if s.len() != 0 {
        vstd::seq::axiom_seq_subrange_decreases(s, 0, s.len() - 1);
        assert(decreases_to!(s => s[s.len() - 1]));
        assert(decreases_to!(s[s.len() - 1] => s[s.len() - 1].value));
    }
}

/// The abstract values of a sequence of fields.
pub open spec fn fields_models(s: Seq<Field>) -> Seq<FieldModel>
    decreases s, 1int,
    via fields_models_decreases
{
    if s.len() == 0 {
        Seq::<FieldModel>::empty()
    } else {
        fields_models(s.drop_last()).push(
            FieldModel { name: s.last().name@, value: doc_model(s.last().value) },
        )
    }
}

impl View for Doc {
    type V = DocModel;

    open spec fn view(&self) -> DocModel {
        doc_model(*self)
    }
}

/// The length and the elements of [`docs_models`], stated pointwise.
pub proof fn lemma_docs_models(s: Seq<Doc>)
    ensures
        docs_models(s).len() == s.len(),
        forall|i: int| 0 <= i < s.len() ==> docs_models(s)[i] == doc_model(s[i]),
    decreases s.len(),
{
    if s.len() != 0 {
        lemma_docs_models(s.drop_last());
    }
}

/// The length and the elements of [`fields_models`], stated pointwise.
pub proof fn lemma_fields_models(s: Seq<Field>)
    ensures
        fields_models(s).len() == s.len(),
        forall|i: int|
            0 <= i < s.len() ==> fields_models(s)[i] == (FieldModel {
                name: s[i].name@,
                value: doc_model(s[i].value),
            }),
    decreases s.len(),
{
    if s.len() != 0 {
        lemma_fields_models(s.drop_last());
    }
}

/// The value of the first field named `name`, if any.
pub open spec fn lookup(fields: Seq<FieldModel>, name: Seq<char>) -> Option<DocModel>
    decreases fields.len(),
{
    if fields.len() == 0 {
        None
    } else if fields[0].name == name {
        Some(fields[0].value)
    } else {
        lookup(fields.drop_first(), name)
    }
}

/// The texts of a list of nodes, if every node is text.
pub open spec fn texts_of(items: Seq<DocModel>) -> Option<Seq<Seq<char>>>
    decreases items.len(),
{
    if items.len() == 0 {
        Some(Seq::<Seq<char>>::empty())
    } else {
        match items.last() {
            DocModel::Text(s) => match texts_of(items.drop_last()) {
                Some(rest) => Some(rest.push(s)),
                None => None,
            },
            _ => None,
        }
    }
}

/// The command read from the fields of an `Execution` record: `command` must
/// be text; `working_directory` defaults to none, `args` to an empty list of
/// texts, `spawn_only` to false; a field of the wrong shape rejects the
/// record.
pub open spec fn decode_exec(rec: Seq<FieldModel>) -> Option<CmdModel> {
    match lookup(rec, "command"@) {
        Some(DocModel::Text(program)) => {
            let wd = match lookup(rec, "working_directory"@) {
                None => Some(Option::<Seq<char>>::None),
                Some(DocModel::Text(d)) => Some(Some(d)),
                Some(_) => None,
            };
            let args = match lookup(rec, "args"@) {
                None => Some(Seq::<Seq<char>>::empty()),
                Some(DocModel::Items(xs)) => texts_of(xs),
                Some(_) => None,
            };
            let sp = match lookup(rec, "spawn_only"@) {
                None => Some(false),
                Some(DocModel::Flag(b)) => Some(b),
                Some(_) => None,
            };
            match (wd, args, sp) {
                (Some(working_directory), Some(args), Some(spawn_only)) => Some(
                    CmdModel::Direct { program, working_directory, args, spawn_only },
                ),
                _ => None,
            }
        },
        _ => None,
    }
}

/// The command a node declares: a bare string is a shell line, `{Command: s}`
/// a shell line, `{Execution: {...}}` a direct execution.
pub open spec fn decode_cmd(d: DocModel) -> Option<CmdModel> {
    match d {
        DocModel::Text(s) => Some(CmdModel::Shell { text: s }),
        DocModel::Fields(fs) => if fs.len() == 1 && fs[0].name == "Command"@ {
            match fs[0].value {
                DocModel::Text(t) => Some(CmdModel::Shell { text: t }),
                _ => None,
            }
        } else if fs.len() == 1 && fs[0].name == "Execution"@ {
            match fs[0].value {
                DocModel::Fields(rec) => decode_exec(rec),
                _ => None,
            }
        } else {
            None
        },
        _ => None,
    }
}

/// The commands a list of nodes declares, if every node declares one.
pub open spec fn decode_cmds(items: Seq<DocModel>) -> Option<Seq<CmdModel>>
    decreases items.len(),
{
    if items.len() == 0 {
        Some(Seq::<CmdModel>::empty())
    } else {
        match (decode_cmds(items.drop_last()), decode_cmd(items.last())) {
            (Some(rest), Some(c)) => Some(rest.push(c)),
            _ => None,
        }
    }
}

/// The batch a node declares: `{Single: c}`, `{Parallel: [c...]}`, a bare
/// list as a parallel group, or a bare string as a single shell line.
pub open spec fn decode_batch(d: DocModel) -> Option<BatchModel> {
    match d {
        DocModel::Text(s) => Some(BatchModel::Single { cmd: CmdModel::Shell { text: s } }),
        DocModel::Items(xs) => match decode_cmds(xs) {
            Some(cs) => Some(BatchModel::Parallel { cmds: cs }),
            None => None,
        },
        DocModel::Fields(fs) => if fs.len() == 1 && fs[0].name == "Single"@ {
            match decode_cmd(fs[0].value) {
                Some(c) => Some(BatchModel::Single { cmd: c }),
                None => None,
            }
        } else if fs.len() == 1 && fs[0].name == "Parallel"@ {
            match fs[0].value {
                DocModel::Items(xs) => match decode_cmds(xs) {
                    Some(cs) => Some(BatchModel::Parallel { cmds: cs }),
                    None => None,
                },
                _ => None,
            }
        } else {
            None
        },
        _ => None,
    }
}

/// The batches a document declares, if every node declares one.
pub open spec fn decode_batches(ds: Seq<DocModel>) -> Option<Seq<BatchModel>>
    decreases ds.len(),
{
    if ds.len() == 0 {
        Some(Seq::<BatchModel>::empty())
    } else {
        match (decode_batches(ds.drop_last()), decode_batch(ds.last())) {
            (Some(rest), Some(b)) => Some(rest.push(b)),
            _ => None,
        }
    }
}

/// The fields of the record that encodes a direct execution; the working
/// directory is written only when one is declared.
pub open spec fn encode_exec_fields(
    program: Seq<char>,
    working_directory: Option<Seq<char>>,
    args: Seq<Seq<char>>,
    spawn_only: bool,
) -> Seq<FieldModel> {
    seq![FieldModel { name: "command"@, value: DocModel::Text(program) }] + (match working_directory {
        Some(d) => seq![FieldModel { name: "working_directory"@, value: DocModel::Text(d) }],
        None => Seq::<FieldModel>::empty(),
    }) + seq![
        FieldModel {
            name: "args"@,
            value: DocModel::Items(args.map_values(|a: Seq<char>| DocModel::Text(a))),
        },
        FieldModel { name: "spawn_only"@, value: DocModel::Flag(spawn_only) },
    ]
}

/// The canonical node for a command.
pub open spec fn encode_cmd(c: CmdModel) -> DocModel {
    match c {
        CmdModel::Shell { text } => DocModel::Fields(
            seq![FieldModel { name: "Command"@, value: DocModel::Text(text) }],
        ),
        CmdModel::Direct { program, working_directory, args, spawn_only } => DocModel::Fields(
            seq![
                FieldModel {
                    name: "Execution"@,
                    value: DocModel::Fields(
                        encode_exec_fields(program, working_directory, args, spawn_only),
                    ),
                },
            ],
        ),
    }
}

/// The canonical node for a batch.
pub open spec fn encode_batch(b: BatchModel) -> DocModel {
    match b {
        BatchModel::Single { cmd } => DocModel::Fields(
            seq![FieldModel { name: "Single"@, value: encode_cmd(cmd) }],
        ),
        BatchModel::Parallel { cmds } => DocModel::Fields(
            seq![
                FieldModel {
                    name: "Parallel"@,
                    value: DocModel::Items(cmds.map_values(|c: CmdModel| encode_cmd(c))),
                },
            ],
        ),
    }
}

/// The canonical document for a batch list.
pub open spec fn encode_batches(bs: Seq<BatchModel>) -> Seq<DocModel> {
    bs.map_values(|b: BatchModel| encode_batch(b))
}

proof fn lemma_texts_of_encoded(args: Seq<Seq<char>>)
    ensures
        texts_of(args.map_values(|a: Seq<char>| DocModel::Text(a))) == Some(args),
    decreases args.len(),
{
    let m = args.map_values(|a: Seq<char>| DocModel::Text(a));
    if args.len() == 0 {
        assert(args =~= Seq::<Seq<char>>::empty());
    } else {
        lemma_texts_of_encoded(args.drop_last());
        assert(m.drop_last() =~= args.drop_last().map_values(|a: Seq<char>| DocModel::Text(a)));
        assert(m.last() == DocModel::Text(args.last()));
        assert(args.drop_last().push(args.last()) =~= args);
    }
}

proof fn lemma_decode_encode_exec(
    program: Seq<char>,
    wd: Option<Seq<char>>,
    args: Seq<Seq<char>>,
    sp: bool,
)
    ensures
        decode_exec(encode_exec_fields(program, wd, args, sp)) == Some(
            CmdModel::Direct { program, working_directory: wd, args, spawn_only: sp },
        ),
{
    reveal_strlit("command");
    reveal_strlit("working_directory");
    reveal_strlit("args");
    reveal_strlit("spawn_only");
    assert(("command"@).len() == 7);
    assert(("working_directory"@).len() == 17);
    assert(("args"@).len() == 4);
    assert(("spawn_only"@).len() == 10);
    let f = encode_exec_fields(program, wd, args, sp);
    let c0 = FieldModel { name: "command"@, value: DocModel::Text(program) };
    let c2 = FieldModel {
        name: "args"@,
        value: DocModel::Items(args.map_values(|a: Seq<char>| DocModel::Text(a))),
    };
    let c3 = FieldModel { name: "spawn_only"@, value: DocModel::Flag(sp) };
    lemma_texts_of_encoded(args);
    match wd {
        Some(d) => {
            let c1 = FieldModel { name: "working_directory"@, value: DocModel::Text(d) };
            assert(f =~= seq![c0, c1, c2, c3]);
            assert(seq![c0, c1, c2, c3].drop_first() =~= seq![c1, c2, c3]);
            assert(seq![c1, c2, c3].drop_first() =~= seq![c2, c3]);
            assert(seq![c2, c3].drop_first() =~= seq![c3]);
            assert(lookup(f, "command"@) == Some(DocModel::Text(program)));
            assert(lookup(f, "working_directory"@) == lookup(seq![c1, c2, c3], "working_directory"@));
            assert(lookup(f, "working_directory"@) == Some(DocModel::Text(d)));
            assert(lookup(f, "args"@) == lookup(seq![c1, c2, c3], "args"@));
            assert(lookup(seq![c1, c2, c3], "args"@) == lookup(seq![c2, c3], "args"@));
            assert(lookup(f, "args"@) == Some(c2.value));
            assert(lookup(f, "spawn_only"@) == lookup(seq![c1, c2, c3], "spawn_only"@));
            assert(lookup(seq![c1, c2, c3], "spawn_only"@) == lookup(seq![c2, c3], "spawn_only"@));
            assert(lookup(seq![c2, c3], "spawn_only"@) == lookup(seq![c3], "spawn_only"@));
            assert(lookup(f, "spawn_only"@) == Some(DocModel::Flag(sp)));
        },
        None => {
            assert(f =~= seq![c0, c2, c3]);
            assert(seq![c0, c2, c3].drop_first() =~= seq![c2, c3]);
            assert(seq![c2, c3].drop_first() =~= seq![c3]);
            assert(seq![c3].drop_first() =~= Seq::<FieldModel>::empty());
            assert(lookup(f, "command"@) == Some(DocModel::Text(program)));
            assert(lookup(f, "working_directory"@) == lookup(seq![c2, c3], "working_directory"@));
            assert(lookup(seq![c2, c3], "working_directory"@) == lookup(
                seq![c3],
                "working_directory"@,
            ));
            assert(lookup(seq![c3], "working_directory"@) == lookup(
                Seq::<FieldModel>::empty(),
                "working_directory"@,
            ));
            assert(lookup(f, "working_directory"@) is None);
            assert(lookup(f, "args"@) == lookup(seq![c2, c3], "args"@));
            assert(lookup(f, "args"@) == Some(c2.value));
            assert(lookup(f, "spawn_only"@) == lookup(seq![c2, c3], "spawn_only"@));
            assert(lookup(seq![c2, c3], "spawn_only"@) == lookup(seq![c3], "spawn_only"@));
            assert(lookup(f, "spawn_only"@) == Some(DocModel::Flag(sp)));
        },
    }
}

/// Law: decoding the canonical node encoded from a command yields exactly
/// that command.
pub proof fn lemma_decode_encode_cmd(c: CmdModel)
    ensures
        decode_cmd(encode_cmd(c)) == Some(c),
{
    reveal_strlit("Command");
    reveal_strlit("Execution");
    assert(("Command"@).len() == 7);
    assert(("Execution"@).len() == 9);
    match c {
        CmdModel::Shell { text } => {
        },
        CmdModel::Direct { program, working_directory, args, spawn_only } => {
            lemma_decode_encode_exec(program, working_directory, args, spawn_only);
        },
    }
}

proof fn lemma_decode_encode_cmds(cs: Seq<CmdModel>)
    ensures
        decode_cmds(cs.map_values(|c: CmdModel| encode_cmd(c))) == Some(cs),
    decreases cs.len(),
{
    let m = cs.map_values(|c: CmdModel| encode_cmd(c));
    if cs.len() == 0 {
        assert(cs =~= Seq::<CmdModel>::empty());
    } else {
        lemma_decode_encode_cmds(cs.drop_last());
        lemma_decode_encode_cmd(cs.last());
        assert(m.drop_last() =~= cs.drop_last().map_values(|c: CmdModel| encode_cmd(c)));
        assert(m.last() == encode_cmd(cs.last()));
        assert(cs.drop_last().push(cs.last()) =~= cs);
    }
}

/// Law: decoding the canonical node encoded from a batch yields exactly that
/// batch.
pub proof fn lemma_decode_encode_batch(b: BatchModel)
    ensures
        decode_batch(encode_batch(b)) == Some(b),
{
    reveal_strlit("Single");
    reveal_strlit("Parallel");
    assert(("Single"@).len() == 6);
    assert(("Parallel"@).len() == 8);
    match b {
        BatchModel::Single { cmd } => {
            lemma_decode_encode_cmd(cmd);
        },
        BatchModel::Parallel { cmds } => {
            lemma_decode_encode_cmds(cmds);
        },
    }
}

/// Law: the codec round-trips — decoding the document encoded from a batch
/// list yields exactly that batch list, field for field.
pub proof fn lemma_codec_round_trip(bs: Seq<BatchModel>)
    ensures
        decode_batches(encode_batches(bs)) == Some(bs),
    decreases bs.len(),
{
    let m = encode_batches(bs);
    if bs.len() == 0 {
        assert(bs =~= Seq::<BatchModel>::empty());
    } else {
        lemma_codec_round_trip(bs.drop_last());
        lemma_decode_encode_batch(bs.last());
        assert(m.drop_last() =~= encode_batches(bs.drop_last()));
        assert(m.last() == encode_batch(bs.last()));
        assert(bs.drop_last().push(bs.last()) =~= bs);
    }
}

/// A document that does not have any of the declared shapes.
#[derive(Debug, Clone, Copy, PartialEq, Eq)]
pub enum DecodeError {
    Malformed,
}

fn cmd_to_doc(spec: &CommandSpec) -> (d: Doc)
    ensures
        doc_model(d) == encode_cmd(spec@),
{
    match spec {
        CommandSpec::ShellLine(text) => {
            let mut fs: Vec<Field> = Vec::new();
            fs.push(Field { name: String::from_str("Command"), value: Doc::Text(text.clone()) });
            proof {
                lemma_fields_models(fs@);
                assert(fields_models(fs@) =~= seq![
                    FieldModel { name: "Command"@, value: DocModel::Text(text@) },
                ]);
            }
            Doc::Fields(fs)
        },
        CommandSpec::DirectExecution { program, working_directory, args, spawn_only } => {
            let mut rec: Vec<Field> = Vec::new();
            rec.push(Field { name: String::from_str("command"), value: Doc::Text(program.clone()) });
            match working_directory {
                Some(wd) => {
                    rec.push(
                        Field {
                            name: String::from_str("working_directory"),
                            value: Doc::Text(wd.clone()),
                        },
                    );
                },
                None => {},
            }
            let mut items: Vec<Doc> = Vec::new();
            let mut i: usize = 0;
            while i < args.len()
                invariant
                    i <= args.len(),
                    items@.len() == i,
                    forall|k: int|
                        0 <= k < i ==> doc_model(items@[k]) == DocModel::Text(args@[k]@),
                decreases args.len() - i,
            {
                items.push(Doc::Text(args[i].clone()));
                i += 1;
            }
            proof {
                lemma_docs_models(items@);
                assert(docs_models(items@) =~= strs_view(args@).map_values(
                    |a: Seq<char>| DocModel::Text(a),
                ));
            }
            rec.push(Field { name: String::from_str("args"), value: Doc::Items(items) });
            rec.push(Field { name: String::from_str("spawn_only"), value: Doc::Flag(*spawn_only) });
            proof {
                lemma_fields_models(rec@);
                assert(fields_models(rec@) =~= encode_exec_fields(
                    program@,
                    match working_directory {
                        Some(wd) => Some(wd@),
                        None => None,
                    },
                    strs_view(args@),
                    *spawn_only,
                ));
            }
            let mut outer: Vec<Field> = Vec::new();
            outer.push(Field { name: String::from_str("Execution"), value: Doc::Fields(rec) });
            proof {
                lemma_fields_models(outer@);
                assert(fields_models(outer@) =~= encode_cmd(spec@)->Fields_0);
            }
            Doc::Fields(outer)
        },
    }
}

fn batch_to_doc(batch: &Batch) -> (d: Doc)
    ensures
        doc_model(d) == encode_batch(batch@),
{
    match batch {
        Batch::Single(cmd) => {
            let mut fs: Vec<Field> = Vec::new();
            fs.push(Field { name: String::from_str("Single"), value: cmd_to_doc(cmd) });
            proof {
                lemma_fields_models(fs@);
                assert(fields_models(fs@) =~= seq![
                    FieldModel { name: "Single"@, value: encode_cmd(cmd@) },
                ]);
            }
            Doc::Fields(fs)
        },
        Batch::Parallel(cmds) => {
            let mut items: Vec<Doc> = Vec::new();
            let mut i: usize = 0;
            while i < cmds.len()
                invariant
                    i <= cmds.len(),
                    items@.len() == i,
                    forall|k: int|
                        0 <= k < i ==> doc_model(items@[k]) == encode_cmd(cmds@[k]@),
                decreases cmds.len() - i,
            {
                let d = cmd_to_doc(&cmds[i]);
                items.push(d);
                i += 1;
            }
            proof {
                lemma_docs_models(items@);
                assert(docs_models(items@) =~= cmds_view(cmds@).map_values(
                    |c: CmdModel| encode_cmd(c),
                ));
            }
            let mut fs: Vec<Field> = Vec::new();
            fs.push(Field { name: String::from_str("Parallel"), value: Doc::Items(items) });
            proof {
                lemma_fields_models(fs@);
                assert(fields_models(fs@) =~= encode_batch(batch@)->Fields_0);
            }
            Doc::Fields(fs)
        },
    }
}

/// Writes the canonical document for a batch list.
pub fn batches_to_doc(batches: &Vec<Batch>) -> (docs: Vec<Doc>)
    ensures
        docs_models(docs@) == encode_batches(batches_view(batches@)),
{
    let mut docs: Vec<Doc> = Vec::new();
    let mut i: usize = 0;
    while i < batches.len()
        invariant
            i <= batches.len(),
            docs@.len() == i,
            forall|k: int| 0 <= k < i ==> doc_model(docs@[k]) == encode_batch(batches@[k]@),
        decreases batches.len() - i,
    {
        let d = batch_to_doc(&batches[i]);
        docs.push(d);
        i += 1;
    }
    proof {
        lemma_docs_models(docs@);
        assert(docs_models(docs@) =~= encode_batches(batches_view(batches@)));
    }
    docs
}

proof fn lemma_texts_of_none(items: Seq<DocModel>, k: int)
    requires
        0 <= k < items.len(),
        !(items[k] is Text),
    ensures
        texts_of(items) is None,
    decreases items.len(),
{
    if k < items.len() - 1 {
        lemma_texts_of_none(items.drop_last(), k);
    }
}

proof fn lemma_decode_cmds_none(items: Seq<DocModel>, k: int)
    requires
        0 <= k < items.len(),
        decode_cmd(items[k]) is None,
    ensures
        decode_cmds(items) is None,
    decreases items.len(),
{
    if k < items.len() - 1 {
        lemma_decode_cmds_none(items.drop_last(), k);
    }
}

proof fn lemma_decode_batches_none(ds: Seq<DocModel>, k: int)
    requires
        0 <= k < ds.len(),
        decode_batch(ds[k]) is None,
    ensures
        decode_batches(ds) is None,
    decreases ds.len(),
{
    if k < ds.len() - 1 {
        lemma_decode_batches_none(ds.drop_last(), k);
    }
}

fn lookup_field<'a>(fields: &'a Vec<Field>, name: &String) -> (r: Option<&'a Doc>)
    ensures
        match r {
            Some(d) => lookup(fields_models(fields@), name@) == Some(doc_model(*d)),
            None => lookup(fields_models(fields@), name@) is None,
        },
{
    proof {
        lemma_fields_models(fields@);
    }
    let ghost fm = fields_models(fields@);
    proof {
        assert(fm.skip(0) =~= fm);
    }
    let mut j: usize = 0;
    while j < fields.len()
        invariant
            j <= fields.len(),
            fm == fields_models(fields@),
            fm.len() == fields@.len(),
            forall|k: int|
                0 <= k < fields@.len() ==> fm[k] == (FieldModel {
                    name: fields@[k].name@,
                    value: doc_model(fields@[k].value),
                }),
            lookup(fm, name@) == lookup(fm.skip(j as int), name@),
        decreases fields.len() - j,
    {
        proof {
            assert(fm.skip(j as int)[0] == fm[j as int]);
        }
        if fields[j].name == *name {
            return Some(&fields[j].value);
        }
        proof {
            assert(fm.skip(j as int).drop_first() =~= fm.skip(j + 1));
        }
        j += 1;
    }
    proof {
        assert(fm.skip(fields@.len() as int) =~= Seq::<FieldModel>::empty());
    }
    None
}

fn texts_from_items(items: &Vec<Doc>) -> (r: Result<Vec<String>, DecodeError>)
    ensures
        match r {
            Ok(v) => texts_of(docs_models(items@)) == Some(strs_view(v@)),
            Err(_) => texts_of(docs_models(items@)) is None,
        },
{
    proof {
        lemma_docs_models(items@);
    }
    let ghost dm = docs_models(items@);
    let mut out: Vec<String> = Vec::new();
    let mut j: usize = 0;
    while j < items.len()
        invariant
            j <= items.len(),
            dm == docs_models(items@),
            dm.len() == items@.len(),
            forall|k: int| 0 <= k < items@.len() ==> dm[k] == doc_model(items@[k]),
            texts_of(dm.take(j as int)) == Some(strs_view(out@)),
        decreases items.len() - j,
    {
        match &items[j] {
            Doc::Text(s) => {
                out.push(s.clone());
                proof {
                    assert(dm.take(j + 1).drop_last() =~= dm.take(j as int));
                    assert(dm.take(j + 1).last() == dm[j as int]);
                    assert(strs_view(out@) =~= strs_view(out@.drop_last()).push(s@));
                }
            },
            _ => {
                proof {
                    lemma_texts_of_none(dm, j as int);
                }
                return Err(DecodeError::Malformed);
            },
        }
        j += 1;
    }
    proof {
        assert(dm.take(items@.len() as int) =~= dm);
    }
    Ok(out)
}

fn exec_from_fields(rec: &Vec<Field>) -> (r: Result<CommandSpec, DecodeError>)
    ensures
        match r {
            Ok(c) => decode_exec(fields_models(rec@)) == Some(c@),
            Err(_) => decode_exec(fields_models(rec@)) is None,
        },
{
    let key_command = String::from_str("command");
    let program: String = match lookup_field(rec, &key_command) {
        Some(d) => match d {
            Doc::Text(p) => p.clone(),
            _ => {
                return Err(DecodeError::Malformed);
            },
        },
        None => {
            return Err(DecodeError::Malformed);
        },
    };
    let key_wd = String::from_str("working_directory");
    let working_directory: Option<String> = match lookup_field(rec, &key_wd) {
        None => None,
        Some(d) => match d {
            Doc::Text(t) => Some(t.clone()),
            _ => {
                return Err(DecodeError::Malformed);
            },
        },
    };
    let key_args = String::from_str("args");
    let args: Vec<String> = match lookup_field(rec, &key_args) {
        None => Vec::new(),
        Some(d) => match d {
            Doc::Items(items) => match texts_from_items(items) {
                Ok(v) => v,
                Err(e) => {
                    return Err(e);
                },
            },
            _ => {
                return Err(DecodeError::Malformed);
            },
        },
    };
    let key_sp = String::from_str("spawn_only");
    let spawn_only: bool = match lookup_field(rec, &key_sp) {
        None => false,
        Some(d) => match d {
            Doc::Flag(b) => *b,
            _ => {
                return Err(DecodeError::Malformed);
            },
        },
    };
    proof {
        assert(strs_view(Seq::<String>::empty()) =~= Seq::<Seq<char>>::empty());
    }
    Ok(CommandSpec::DirectExecution { program, working_directory, args, spawn_only })
}

/// Reads the command a node declares; errors exactly when the node has none
/// of the declared command shapes.
pub fn cmd_from_doc(d: &Doc) -> (r: Result<CommandSpec, DecodeError>)
    ensures
        match r {
            Ok(c) => decode_cmd(d@) == Some(c@),
            Err(_) => decode_cmd(d@) is None,
        },
{
    match d {
        Doc::Text(s) => Ok(CommandSpec::ShellLine(s.clone())),
        Doc::Fields(fs) => {
            proof {
                lemma_fields_models(fs@);
            }
            if fs.len() == 1 {
                let key_cmd = String::from_str("Command");
                let key_exec = String::from_str("Execution");
                if fs[0].name == key_cmd {
                    match &fs[0].value {
                        Doc::Text(t) => Ok(CommandSpec::ShellLine(t.clone())),
                        _ => Err(DecodeError::Malformed),
                    }
                } else if fs[0].name == key_exec {
                    match &fs[0].value {
                        Doc::Fields(rec) => exec_from_fields(rec),
                        _ => Err(DecodeError::Malformed),
                    }
                } else {
                    Err(DecodeError::Malformed)
                }
            } else {
                Err(DecodeError::Malformed)
            }
        },
        _ => Err(DecodeError::Malformed),
    }
}

fn cmds_from_docs(items: &Vec<Doc>) -> (r: Result<Vec<CommandSpec>, DecodeError>)
    ensures
        match r {
            Ok(v) => decode_cmds(docs_models(items@)) == Some(cmds_view(v@)),
            Err(_) => decode_cmds(docs_models(items@)) is None,
        },
{
    proof {
        lemma_docs_models(items@);
    }
    let ghost dm = docs_models(items@);
    let mut out: Vec<CommandSpec> = Vec::new();
    let mut j: usize = 0;
    while j < items.len()
        invariant
            j <= items.len(),
            dm == docs_models(items@),
            dm.len() == items@.len(),
            forall|k: int| 0 <= k < items@.len() ==> dm[k] == doc_model(items@[k]),
            decode_cmds(dm.take(j as int)) == Some(cmds_view(out@)),
        decreases items.len() - j,
    {
        match cmd_from_doc(&items[j]) {
            Ok(c) => {
                let ghost cg = c;
                out.push(c);
                proof {
                    assert(dm.take(j + 1).drop_last() =~= dm.take(j as int));
                    assert(dm.take(j + 1).last() == dm[j as int]);
                    assert(cmds_view(out@) =~= cmds_view(out@.drop_last()).push(cg@));
                }
            },
            Err(e) => {
                proof {
                    lemma_decode_cmds_none(dm, j as int);
                }
                return Err(e);
            },
        }
        j += 1;
    }
    proof {
        assert(dm.take(items@.len() as int) =~= dm);
    }
    Ok(out)
}

/// Reads the batch a node declares; errors exactly when the node has none of
/// the declared batch shapes.
pub fn batch_from_doc(d: &Doc) -> (r: Result<Batch, DecodeError>)
    ensures
        match r {
            Ok(b) => decode_batch(d@) == Some(b@),
            Err(_) => decode_batch(d@) is None,
        },
{
    match d {
        Doc::Text(s) => Ok(Batch::Single(CommandSpec::ShellLine(s.clone()))),
        Doc::Items(xs) => match cmds_from_docs(xs) {
            Ok(v) => Ok(Batch::Parallel(v)),
            Err(e) => Err(e),
        },
        Doc::Fields(fs) => {
            proof {
                lemma_fields_models(fs@);
            }
            if fs.len() == 1 {
                let key_single = String::from_str("Single");
                let key_parallel = String::from_str("Parallel");
                if fs[0].name == key_single {
                    match cmd_from_doc(&fs[0].value) {
                        Ok(c) => Ok(Batch::Single(c)),
                        Err(e) => Err(e),
                    }
                } else if fs[0].name == key_parallel {
                    match &fs[0].value {
                        Doc::Items(xs) => match cmds_from_docs(xs) {
                            Ok(v) => Ok(Batch::Parallel(v)),
                            Err(e) => Err(e),
                        },
                        _ => Err(DecodeError::Malformed),
                    }
                } else {
                    Err(DecodeError::Malformed)
                }
            } else {
                Err(DecodeError::Malformed)
            }
        },
        Doc::Flag(_) => Err(DecodeError::Malformed),
    }
}

/// Reads the batch list a document declares; errors exactly when some node
/// declares none.
pub fn batches_from_doc(docs: &Vec<Doc>) -> (r: Result<Vec<Batch>, DecodeError>)
    ensures
        match r {
            Ok(bs) => decode_batches(docs_models(docs@)) == Some(batches_view(bs@)),
            Err(_) => decode_batches(docs_models(docs@)) is None,
        },
{
    proof {
        lemma_docs_models(docs@);
    }
    let ghost dm = docs_models(docs@);
    let mut out: Vec<Batch> = Vec::new();
    let mut j: usize = 0;
    while j < docs.len()
        invariant
            j <= docs.len(),
            dm == docs_models(docs@),
            dm.len() == docs@.len(),
            forall|k: int| 0 <= k < docs@.len() ==> dm[k] == doc_model(docs@[k]),
            decode_batches(dm.take(j as int)) == Some(batches_view(out@)),
        decreases docs.len() - j,
    {
        match batch_from_doc(&docs[j]) {
            Ok(b) => {
                let ghost bg = b;
                out.push(b);
                proof {
                    assert(dm.take(j + 1).drop_last() =~= dm.take(j as int));
                    assert(dm.take(j + 1).last() == dm[j as int]);
                    assert(batches_view(out@) =~= batches_view(out@.drop_last()).push(bg@));
                }
            },
            Err(e) => {
                proof {
                    lemma_decode_batches_none(dm, j as int);
                }
                return Err(e);
            },
        }
        j += 1;
    }
    proof {
        assert(dm.take(docs@.len() as int) =~= dm);
    }
    Ok(out)
}

} // verus!
