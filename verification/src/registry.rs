//! The block registration pipeline: register a block, create its editor,
//! attach an interpreter, bind it to the runtime.
//!
//! Each stage needs the ones before it, runs at most once per block and
//! records an action-log entry scoped to the block's dimension and task.

use vstd::prelude::*;
use crate::action_log::{ActionLog, EventType, appended_one};
use crate::ids::{DimensionId, TaskId, new_uuid};
use crate::idmap::IdMap;
use crate::json::{JsonModel, JsonValue, lemma_members_models, uuid_text};

verus! {

/// Errors of the block registry.
#[derive(Debug)]
pub enum RegistryError {
    /// The block is unknown.
    BlockNotFound(u128),
    /// An earlier stage has not run yet.
    StageNotComplete { id: u128, reason: &'static str },
    /// The block already has an editor.
    EditorAlreadyExists(u128),
    /// The block already has an interpreter.
    InterpreterAlreadyAttached(u128),
    /// The block is already bound.
    AlreadyBound(u128),
}

/// The editor of a block.
#[derive(Debug)]
pub struct EditorInstance {
    /// Editor session id.
    pub id: u128,
    /// Dimension of the block.
    pub dimension_id: DimensionId,
    /// Language of the editor.
    pub language: String,
    /// Initial content.
    pub content: String,
}

impl Clone for EditorInstance {
    fn clone(&self) -> (r: Self)
        ensures
            r == *self,
    {
        EditorInstance {
            id: self.id,
            dimension_id: self.dimension_id,
            language: self.language.clone(),
            content: self.content.clone(),
        }
    }
}

/// The interpreter attached to a block's editor.
#[derive(Debug)]
pub struct InterpreterAttachment {
    /// The editor.
    pub editor_id: u128,
    /// Interpreter kind.
    pub interpreter_type: String,
    /// Interpreter configuration.
    pub config: JsonValue,
}

/// The binding of a fully wired block to the runtime.
#[derive(Clone, Copy, Debug, PartialEq, Eq, Structural)]
pub struct RuntimeBinding {
    /// The block.
    pub block_id: u128,
    /// Its editor.
    pub editor_id: u128,
    /// Its dimension.
    pub dimension_id: DimensionId,
    /// Its task.
    pub task_id: TaskId,
}

/// A registered block and the stages it has passed.
#[derive(Debug)]
pub struct RegisteredBlock {
    /// Dimension of the block.
    pub dimension_id: DimensionId,
    /// Task that registered it.
    pub task_id: TaskId,
    /// Its editor, once created.
    pub editor: Option<EditorInstance>,
    /// Its interpreter, once attached.
    pub interpreter: Option<InterpreterAttachment>,
    /// Its runtime binding, once bound.
    pub binding: Option<RuntimeBinding>,
}

/// Every block passed its stages in order: a binding needs an interpreter,
/// which needs an editor; the interpreter is attached to that editor and the
/// binding names the block, its editor, dimension and task.
pub open spec fn stages_in_order(m: Map<u128, RegisteredBlock>) -> bool {
    forall|k: u128| #[trigger] m.contains_key(k) ==> {
        let b = m[k];
        &&& (b.interpreter is Some ==> b.editor is Some)
        &&& (b.binding is Some ==> b.interpreter is Some)
        &&& (b.interpreter matches Some(i) ==> i.editor_id == b.editor->0.id)
        &&& (b.binding matches Some(rb) ==> rb == (RuntimeBinding {
            block_id: k,
            editor_id: b.editor->0.id,
            dimension_id: b.dimension_id,
            task_id: b.task_id,
        }))
    }
}

/// The blocks, keyed by id.
#[derive(Debug)]
pub struct BlockRegistry {
    blocks: IdMap<RegisteredBlock>,
}

impl BlockRegistry {
    /// The blocks by id.
    pub closed spec fn spec_blocks(&self) -> Map<u128, RegisteredBlock> {
        self.blocks@
    }

    /// No block.
    pub fn new() -> (r: Self)
        ensures
            r.spec_blocks() == Map::<u128, RegisteredBlock>::empty(),
            stages_in_order(r.spec_blocks()),
    {
        BlockRegistry { blocks: IdMap::new() }
    }

    /// Stage one: register a block of the dimension and task under a fresh
    /// id; records `controller.registered`.
    pub fn register_block(&mut self, dimension_id: DimensionId, task_id: TaskId, log: &mut ActionLog) -> (r: u128)
        ensures
            final(self).spec_blocks() == old(self).spec_blocks().insert(r, RegisteredBlock {
                dimension_id,
                task_id,
                editor: None,
                interpreter: None,
                binding: None,
            }),
            stages_in_order(old(self).spec_blocks()) ==> stages_in_order(final(self).spec_blocks()),
            appended_one(old(log)@, final(log)@, EventType::ControllerRegistered, Some(dimension_id), Some(task_id)),
            final(log)@.last().payload.model() == JsonModel::Object(seq![
                ("block_id"@, JsonModel::Str(uuid_text(r))),
                ("stage"@, JsonModel::Str("register"@)),
            ]),
    {
        let id = new_uuid();
        let _ = self.blocks.insert(id, RegisteredBlock { dimension_id, task_id, editor: None, interpreter: None, binding: None });
        let members = vec![
            ("block_id".to_owned(), JsonValue::from_uuid(id)),
            ("stage".to_owned(), JsonValue::string("register")),
        ];
        proof {
            lemma_members_models(members@);
            assert(members@.map_values(|m: (String, JsonValue)| (m.0@, m.1.model())) =~= seq![
                ("block_id"@, JsonModel::Str(uuid_text(id))),
                ("stage"@, JsonModel::Str("register"@)),
            ]);
        }
        let payload = JsonValue::object(members);
        log.record(EventType::ControllerRegistered, Some(dimension_id), Some(task_id), payload);
        id
    }

    /// Stage two: create the block's editor for the language; records
    /// `editor.created`.
    pub fn create_editor(&mut self, block_id: u128, language: &str, log: &mut ActionLog) -> (r: Result<u128, RegistryError>)
        ensures
            !old(self).spec_blocks().contains_key(block_id) ==> (r matches Err(e) && e == RegistryError::BlockNotFound(block_id)),
            old(self).spec_blocks().contains_key(block_id) && old(self).spec_blocks()[block_id].editor is Some
                ==> (r matches Err(e) && e == RegistryError::EditorAlreadyExists(block_id)),
            (r is Ok) <==> (old(self).spec_blocks().contains_key(block_id) && old(self).spec_blocks()[block_id].editor is None),
            r is Err ==> final(self).spec_blocks() == old(self).spec_blocks() && final(log)@ == old(log)@,
            r matches Ok(eid) ==> {
                let b = old(self).spec_blocks()[block_id];
                &&& final(self).spec_blocks().contains_key(block_id)
                &&& final(self).spec_blocks() == old(self).spec_blocks().insert(block_id, RegisteredBlock {
                    editor: final(self).spec_blocks()[block_id].editor,
                    ..b
                })
                &&& final(self).spec_blocks()[block_id].editor matches Some(ed) && ed.id == eid
                    && ed.dimension_id == b.dimension_id && ed.language@ == language@ && ed.content@.len() == 0
                &&& appended_one(old(log)@, final(log)@, EventType::EditorCreated, Some(b.dimension_id), Some(b.task_id))
                &&& final(log)@.last().payload.model() == JsonModel::Object(seq![
                    ("block_id"@, JsonModel::Str(uuid_text(block_id))),
                    ("editor_id"@, JsonModel::Str(uuid_text(eid))),
                    ("language"@, JsonModel::Str(language@)),
                ])
            },
            stages_in_order(old(self).spec_blocks()) ==> stages_in_order(final(self).spec_blocks()),
    {
        let b = match self.blocks.remove(block_id) {
            None => {
                proof {
                    assert(self.blocks@ =~= old(self).blocks@);
                }
                return Err(RegistryError::BlockNotFound(block_id));
            },
            Some(b) => b,
        };
        if b.editor.is_some() {
            let _ = self.blocks.insert(block_id, b);
            proof {
                assert(self.blocks@ =~= old(self).blocks@);
            }
            return Err(RegistryError::EditorAlreadyExists(block_id));
        }
        let editor_id = new_uuid();
        let dimension_id = b.dimension_id;
        let task_id = b.task_id;
        let mut b = b;
        b.editor = Some(EditorInstance { id: editor_id, dimension_id, language: language.to_owned(), content: String::new() });
        let _ = self.blocks.insert(block_id, b);
        proof {
            assert(self.blocks@ =~= old(self).blocks@.insert(block_id, RegisteredBlock {
                editor: self.blocks@[block_id].editor,
                ..old(self).blocks@[block_id]
            }));
        }
        let members = vec![
            ("block_id".to_owned(), JsonValue::from_uuid(block_id)),
            ("editor_id".to_owned(), JsonValue::from_uuid(editor_id)),
            ("language".to_owned(), JsonValue::string(language)),
        ];
        proof {
            lemma_members_models(members@);
            assert(members@.map_values(|m: (String, JsonValue)| (m.0@, m.1.model())) =~= seq![
                ("block_id"@, JsonModel::Str(uuid_text(block_id))),
                ("editor_id"@, JsonModel::Str(uuid_text(editor_id))),
                ("language"@, JsonModel::Str(language@)),
            ]);
        }
        let payload = JsonValue::object(members);
        log.record(EventType::EditorCreated, Some(dimension_id), Some(task_id), payload);
        Ok(editor_id)
    }

    /// Stage three: attach an interpreter to the block's editor; records
    /// `interpreter.attached`.
    pub fn attach_interpreter(&mut self, block_id: u128, interpreter_type: &str, config: JsonValue, log: &mut ActionLog)
        -> (r: Result<(), RegistryError>)
        ensures
            ({
                let old_blocks = old(self).spec_blocks();
                let b = old_blocks[block_id];
                &&& !old_blocks.contains_key(block_id) ==> (r matches Err(e) && e == RegistryError::BlockNotFound(block_id))
                &&& old_blocks.contains_key(block_id) && b.editor is None ==> (r matches Err(e) && e
                    == (RegistryError::StageNotComplete {
                        id: block_id,
                        reason: "create_editor() must be called before attach_interpreter()",
                    }))
                &&& old_blocks.contains_key(block_id) && b.editor is Some && b.interpreter is Some
                    ==> (r matches Err(e) && e == RegistryError::InterpreterAlreadyAttached(block_id))
                &&& (r is Ok) <==> (old_blocks.contains_key(block_id) && b.editor is Some && b.interpreter is None)
                &&& r is Err ==> final(self).spec_blocks() == old_blocks && final(log)@ == old(log)@
                &&& r is Ok ==> {
                    &&& final(self).spec_blocks().contains_key(block_id)
                    &&& final(self).spec_blocks() == old_blocks.insert(block_id, RegisteredBlock {
                        interpreter: final(self).spec_blocks()[block_id].interpreter,
                        ..b
                    })
                    &&& final(self).spec_blocks()[block_id].interpreter matches Some(i) && i.editor_id == b.editor->0.id
                        && i.interpreter_type@ == interpreter_type@ && i.config == config
                    &&& appended_one(old(log)@, final(log)@, EventType::InterpreterAttached, Some(b.dimension_id),
                        Some(b.task_id))
                    &&& final(log)@.last().payload.model() == JsonModel::Object(seq![
                        ("block_id"@, JsonModel::Str(uuid_text(block_id))),
                        ("editor_id"@, JsonModel::Str(uuid_text(b.editor->0.id))),
                        ("interpreter_type"@, JsonModel::Str(interpreter_type@)),
                        ("config"@, config.model()),
                    ])
                }
            }),
            stages_in_order(old(self).spec_blocks()) ==> stages_in_order(final(self).spec_blocks()),
    {
        let b = match self.blocks.remove(block_id) {
            None => {
                proof {
                    assert(self.blocks@ =~= old(self).blocks@);
                }
                return Err(RegistryError::BlockNotFound(block_id));
            },
            Some(b) => b,
        };
        let editor_id = match &b.editor {
            Some(e) => e.id,
            None => {
                let _ = self.blocks.insert(block_id, b);
                proof {
                    assert(self.blocks@ =~= old(self).blocks@);
                }
                return Err(RegistryError::StageNotComplete {
                    id: block_id,
                    reason: "create_editor() must be called before attach_interpreter()",
                });
            },
        };
        if b.interpreter.is_some() {
            let _ = self.blocks.insert(block_id, b);
            proof {
                assert(self.blocks@ =~= old(self).blocks@);
            }
            return Err(RegistryError::InterpreterAlreadyAttached(block_id));
        }
        let dimension_id = b.dimension_id;
        let task_id = b.task_id;
        let members = vec![
            ("block_id".to_owned(), JsonValue::from_uuid(block_id)),
            ("editor_id".to_owned(), JsonValue::from_uuid(editor_id)),
            ("interpreter_type".to_owned(), JsonValue::string(interpreter_type)),
            ("config".to_owned(), config.clone()),
        ];
        proof {
            lemma_members_models(members@);
            assert(members@.map_values(|m: (String, JsonValue)| (m.0@, m.1.model())) =~= seq![
                ("block_id"@, JsonModel::Str(uuid_text(block_id))),
                ("editor_id"@, JsonModel::Str(uuid_text(editor_id))),
                ("interpreter_type"@, JsonModel::Str(interpreter_type@)),
                ("config"@, config.model()),
            ]);
        }
        let payload = JsonValue::object(members);
        let mut b = b;
        b.interpreter = Some(InterpreterAttachment { editor_id, interpreter_type: interpreter_type.to_owned(), config });
        let _ = self.blocks.insert(block_id, b);
        proof {
            assert(self.blocks@ =~= old(self).blocks@.insert(block_id, RegisteredBlock {
                interpreter: self.blocks@[block_id].interpreter,
                ..old(self).blocks@[block_id]
            }));
        }
        log.record(EventType::InterpreterAttached, Some(dimension_id), Some(task_id), payload);
        Ok(())
    }

    /// Stage four: bind the block to the runtime; records `runtime.bound`.
    pub fn bind_runtime(&mut self, block_id: u128, log: &mut ActionLog) -> (r: Result<RuntimeBinding, RegistryError>)
        ensures
            ({
                let old_blocks = old(self).spec_blocks();
                let b = old_blocks[block_id];
                &&& !old_blocks.contains_key(block_id) ==> (r matches Err(e) && e == RegistryError::BlockNotFound(block_id))
                &&& old_blocks.contains_key(block_id) && b.editor is None ==> (r matches Err(e) && e
                    == (RegistryError::StageNotComplete {
                        id: block_id,
                        reason: "create_editor() and attach_interpreter() must be called first",
                    }))
                &&& old_blocks.contains_key(block_id) && b.editor is Some && b.interpreter is None ==> (r matches Err(e)
                    && e == (RegistryError::StageNotComplete {
                        id: block_id,
                        reason: "attach_interpreter() must be called before bind_runtime()",
                    }))
                &&& old_blocks.contains_key(block_id) && b.editor is Some && b.interpreter is Some && b.binding is Some
                    ==> (r matches Err(e) && e == RegistryError::AlreadyBound(block_id))
                &&& (r is Ok) <==> (old_blocks.contains_key(block_id) && b.editor is Some && b.interpreter is Some
                    && b.binding is None)
                &&& r is Err ==> final(self).spec_blocks() == old_blocks && final(log)@ == old(log)@
                &&& r matches Ok(rb) ==> {
                    &&& rb == (RuntimeBinding {
                        block_id,
                        editor_id: b.editor->0.id,
                        dimension_id: b.dimension_id,
                        task_id: b.task_id,
                    })
                    &&& final(self).spec_blocks() == old_blocks.insert(block_id, RegisteredBlock { binding: Some(rb), ..b })
                    &&& appended_one(old(log)@, final(log)@, EventType::RuntimeBound, Some(b.dimension_id), Some(b.task_id))
                    &&& final(log)@.last().payload.model() == JsonModel::Object(seq![
                        ("block_id"@, JsonModel::Str(uuid_text(block_id))),
                        ("editor_id"@, JsonModel::Str(uuid_text(b.editor->0.id))),
                        ("dimension_id"@, JsonModel::Str(uuid_text(b.dimension_id.0))),
                    ])
                }
            }),
            stages_in_order(old(self).spec_blocks()) ==> stages_in_order(final(self).spec_blocks()),
    {
        let b = match self.blocks.remove(block_id) {
            None => {
                proof {
                    assert(self.blocks@ =~= old(self).blocks@);
                }
                return Err(RegistryError::BlockNotFound(block_id));
            },
            Some(b) => b,
        };
        let editor_id = match &b.editor {
            Some(e) => e.id,
            None => {
                let _ = self.blocks.insert(block_id, b);
                proof {
                    assert(self.blocks@ =~= old(self).blocks@);
                }
                return Err(RegistryError::StageNotComplete {
                    id: block_id,
                    reason: "create_editor() and attach_interpreter() must be called first",
                });
            },
        };
        if b.interpreter.is_none() {
            let _ = self.blocks.insert(block_id, b);
            proof {
                assert(self.blocks@ =~= old(self).blocks@);
            }
            return Err(RegistryError::StageNotComplete {
                id: block_id,
                reason: "attach_interpreter() must be called before bind_runtime()",
            });
        }
        if b.binding.is_some() {
            let _ = self.blocks.insert(block_id, b);
            proof {
                assert(self.blocks@ =~= old(self).blocks@);
            }
            return Err(RegistryError::AlreadyBound(block_id));
        }
        let binding = RuntimeBinding { block_id, editor_id, dimension_id: b.dimension_id, task_id: b.task_id };
        let dimension_id = b.dimension_id;
        let task_id = b.task_id;
        let mut b = b;
        b.binding = Some(binding);
        let _ = self.blocks.insert(block_id, b);
        proof {
            assert(self.blocks@ =~= old(self).blocks@.insert(block_id, RegisteredBlock {
                binding: Some(binding),
                ..old(self).blocks@[block_id]
            }));
        }
        let members = vec![
            ("block_id".to_owned(), JsonValue::from_uuid(block_id)),
            ("editor_id".to_owned(), JsonValue::from_uuid(editor_id)),
            ("dimension_id".to_owned(), JsonValue::from_uuid(dimension_id.0)),
        ];
        proof {
            lemma_members_models(members@);
            assert(members@.map_values(|m: (String, JsonValue)| (m.0@, m.1.model())) =~= seq![
                ("block_id"@, JsonModel::Str(uuid_text(block_id))),
                ("editor_id"@, JsonModel::Str(uuid_text(editor_id))),
                ("dimension_id"@, JsonModel::Str(uuid_text(dimension_id.0))),
            ]);
        }
        let payload = JsonValue::object(members);
        log.record(EventType::RuntimeBound, Some(dimension_id), Some(task_id), payload);
        Ok(binding)
    }

    /// The block's runtime binding, once bound.
    pub fn binding_for(&self, block_id: u128) -> (r: Option<RuntimeBinding>)
        ensures
            r == (if self.spec_blocks().contains_key(block_id) { self.spec_blocks()[block_id].binding } else { None }),
    {
        match self.blocks.get(block_id) {
            Some(b) => b.binding,
            None => None,
        }
    }

    /// A copy of the block's editor, once created.
    pub fn editor_for(&self, block_id: u128) -> (r: Option<EditorInstance>)
        ensures
            r == (if self.spec_blocks().contains_key(block_id) { self.spec_blocks()[block_id].editor } else { None }),
    {
        match self.blocks.get(block_id) {
            Some(b) => match &b.editor {
                Some(e) => Some(e.clone()),
                None => None,
            },
            None => None,
        }
    }

    /// The number of blocks.
    pub fn len(&self) -> (r: usize)
        ensures
            r == self.spec_blocks().len(),
    {
        self.blocks.len()
    }

    /// Whether there is no block.
    pub fn is_empty(&self) -> (r: bool)
        ensures
            r == (self.spec_blocks().len() == 0),
    {
        self.blocks.is_empty()
    }
}

} // verus!
