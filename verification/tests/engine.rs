use std::cell::RefCell;
use std::rc::Rc;

use rvm_bridge::CodeHolder;
use rvm_bridge::FunctionDef;
use rvm_bridge::Instruction;
use rvm_bridge::Interpreter;
use rvm_bridge::NativeFn;
use rvm_bridge::RVMError;
use rvm_bridge::ResurgenceState;

type Log = Rc<RefCell<Vec<String>>>;

#[derive(Clone)]
enum TestNative {
    PrintNumber(Log),
    PrintString(Log),
    Fail(String),
    Noop,
}

impl NativeFn for TestNative {
    fn call(&self, state: &mut ResurgenceState) -> Result<(), RVMError> {
        match self {
            TestNative::PrintNumber(log) => {
                let n = state.get_i64()?;
                log.borrow_mut().push(format!("printNumber:{}", n));
                Ok(())
            },
            TestNative::PrintString(log) => {
                let s = state.get_string()?;
                log.borrow_mut().push(format!("printString:{}", s));
                Ok(())
            },
            TestNative::Fail(msg) => Err(RVMError::NativeFunctionError(msg.clone())),
            TestNative::Noop => Ok(()),
        }
    }
}

fn demo_program() -> CodeHolder {
    CodeHolder {
        instructions: vec![
            Instruction::PushInt(42),
            Instruction::CallImport(0),
            Instruction::PushText("hi".to_string()),
            Instruction::CallImport(1),
            Instruction::Return,
        ],
        functions: vec![FunctionDef { name: "main".to_string(), entry: 0 }],
        imports: vec!["printNumber".to_string(), "printString".to_string()],
    }
}

#[test]
fn resolve_with_zero_imports_succeeds_on_empty_registry() {
    let code = CodeHolder {
        instructions: vec![Instruction::Return],
        functions: vec![FunctionDef { name: "main".to_string(), entry: 0 }],
        imports: vec![],
    };
    let mut it: Interpreter<TestNative> = Interpreter::new(code);
    assert_eq!(it.resolve_imports(), Ok(()));
}

#[test]
fn resolve_with_zero_imports_succeeds_whatever_is_registered() {
    let code = CodeHolder {
        instructions: vec![Instruction::Return],
        functions: vec![FunctionDef { name: "main".to_string(), entry: 0 }],
        imports: vec![],
    };
    let mut it: Interpreter<TestNative> = Interpreter::new(code);
    it.register_function(TestNative::Noop, "unrelated".to_string());
    assert_eq!(it.resolve_imports(), Ok(()));
}

#[test]
fn resolve_succeeds_when_every_import_is_registered() {
    let log: Log = Rc::new(RefCell::new(Vec::new()));
    let mut it: Interpreter<TestNative> = Interpreter::new(demo_program());
    it.register_function(TestNative::PrintNumber(log.clone()), "printNumber".to_string());
    it.register_function(TestNative::PrintString(log.clone()), "printString".to_string());
    assert_eq!(it.resolve_imports(), Ok(()));
}

#[test]
fn resolve_fails_with_the_missing_names() {
    let log: Log = Rc::new(RefCell::new(Vec::new()));
    let mut it: Interpreter<TestNative> = Interpreter::new(demo_program());
    it.register_function(TestNative::PrintNumber(log.clone()), "printNumber".to_string());
    assert_eq!(
        it.resolve_imports(),
        Err(RVMError::UnresolvedImportError(vec!["printString".to_string()]))
    );
}

#[test]
fn nothing_executes_while_an_import_is_unresolved() {
    let log: Log = Rc::new(RefCell::new(Vec::new()));
    let mut it: Interpreter<TestNative> = Interpreter::new(demo_program());
    it.register_function(TestNative::PrintNumber(log.clone()), "printNumber".to_string());
    assert!(it.resolve_imports().is_err());
    let r = it.execute_function(&"main".to_string());
    assert_eq!(r, Err(RVMError::UnresolvedImportError(vec!["printNumber".to_string()])));
    // The registered native was never invoked: resolution is all or nothing.
    assert!(log.borrow().is_empty());
}

#[test]
fn execute_function_not_found_has_no_effect() {
    let log: Log = Rc::new(RefCell::new(Vec::new()));
    let mut it: Interpreter<TestNative> = Interpreter::new(demo_program());
    it.register_function(TestNative::PrintNumber(log.clone()), "printNumber".to_string());
    it.register_function(TestNative::PrintString(log.clone()), "printString".to_string());
    assert_eq!(it.resolve_imports(), Ok(()));
    let r = it.execute_function(&"doesNotExist".to_string());
    assert_eq!(r, Err(RVMError::FunctionNotFoundError("doesNotExist".to_string())));
    assert!(log.borrow().is_empty());
}

#[test]
fn end_to_end_natives_run_in_program_order_with_their_arguments() {
    let log: Log = Rc::new(RefCell::new(Vec::new()));
    let mut it: Interpreter<TestNative> = Interpreter::new(demo_program());
    it.register_function(TestNative::PrintNumber(log.clone()), "printNumber".to_string());
    it.register_function(TestNative::PrintString(log.clone()), "printString".to_string());
    assert_eq!(it.resolve_imports(), Ok(()));
    assert_eq!(it.execute_function(&"main".to_string()), Ok(()));
    assert_eq!(*log.borrow(), vec!["printNumber:42".to_string(), "printString:hi".to_string()]);
}

#[test]
fn a_native_failure_aborts_the_run_with_its_error() {
    let mut it: Interpreter<TestNative> = Interpreter::new(demo_program());
    it.register_function(TestNative::Fail("boom".to_string()), "printNumber".to_string());
    it.register_function(TestNative::Noop, "printString".to_string());
    assert_eq!(it.resolve_imports(), Ok(()));
    assert_eq!(
        it.execute_function(&"main".to_string()),
        Err(RVMError::NativeFunctionError("boom".to_string()))
    );
}

#[test]
fn a_type_mismatch_inside_a_native_surfaces_as_the_fault() {
    let log: Log = Rc::new(RefCell::new(Vec::new()));
    let code = CodeHolder {
        instructions: vec![
            Instruction::PushText("notANumber".to_string()),
            Instruction::CallImport(0),
            Instruction::Return,
        ],
        functions: vec![FunctionDef { name: "main".to_string(), entry: 0 }],
        imports: vec!["printNumber".to_string()],
    };
    let mut it: Interpreter<TestNative> = Interpreter::new(code);
    it.register_function(TestNative::PrintNumber(log.clone()), "printNumber".to_string());
    assert_eq!(it.resolve_imports(), Ok(()));
    assert_eq!(it.execute_function(&"main".to_string()), Err(RVMError::TypeMismatchError));
    assert!(log.borrow().is_empty());
}

#[test]
fn reregistering_before_resolution_binds_the_replacement() {
    let log: Log = Rc::new(RefCell::new(Vec::new()));
    let code = CodeHolder {
        instructions: vec![
            Instruction::PushInt(7),
            Instruction::CallImport(0),
            Instruction::Return,
        ],
        functions: vec![FunctionDef { name: "main".to_string(), entry: 0 }],
        imports: vec!["f".to_string()],
    };
    let mut it: Interpreter<TestNative> = Interpreter::new(code);
    it.register_function(TestNative::Fail("old".to_string()), "f".to_string());
    it.register_function(TestNative::PrintNumber(log.clone()), "f".to_string());
    assert_eq!(it.resolve_imports(), Ok(()));
    assert_eq!(it.execute_function(&"main".to_string()), Ok(()));
    assert_eq!(*log.borrow(), vec!["printNumber:7".to_string()]);
}

#[test]
fn execute_without_any_resolution_faults_at_the_first_import_call() {
    let log: Log = Rc::new(RefCell::new(Vec::new()));
    let mut it: Interpreter<TestNative> = Interpreter::new(demo_program());
    it.register_function(TestNative::PrintNumber(log.clone()), "printNumber".to_string());
    it.register_function(TestNative::PrintString(log.clone()), "printString".to_string());
    let r = it.execute_function(&"main".to_string());
    assert_eq!(r, Err(RVMError::UnresolvedImportError(vec!["printNumber".to_string()])));
    assert!(log.borrow().is_empty());
}

#[test]
fn a_call_to_a_slot_beyond_the_import_table_faults_with_no_name() {
    let code = CodeHolder {
        instructions: vec![Instruction::CallImport(3), Instruction::Return],
        functions: vec![FunctionDef { name: "main".to_string(), entry: 0 }],
        imports: vec!["f".to_string()],
    };
    let mut it: Interpreter<TestNative> = Interpreter::new(code);
    it.register_function(TestNative::Noop, "f".to_string());
    assert_eq!(it.resolve_imports(), Ok(()));
    // Slot 3 is declared nowhere, so the fault can carry no name.
    assert_eq!(
        it.execute_function(&"main".to_string()),
        Err(RVMError::UnresolvedImportError(vec![]))
    );
}

#[test]
fn running_off_the_end_of_the_instructions_completes_the_frame() {
    let code = CodeHolder {
        instructions: vec![Instruction::PushInt(1)],
        functions: vec![FunctionDef { name: "main".to_string(), entry: 0 }],
        imports: vec![],
    };
    let mut it: Interpreter<TestNative> = Interpreter::new(code);
    assert_eq!(it.resolve_imports(), Ok(()));
    assert_eq!(it.execute_function(&"main".to_string()), Ok(()));
}

#[test]
fn registration_after_a_successful_resolution_is_ignored() {
    let log: Log = Rc::new(RefCell::new(Vec::new()));
    let code = CodeHolder {
        instructions: vec![
            Instruction::PushInt(5),
            Instruction::CallImport(0),
            Instruction::Return,
        ],
        functions: vec![FunctionDef { name: "main".to_string(), entry: 0 }],
        imports: vec!["f".to_string()],
    };
    let mut it: Interpreter<TestNative> = Interpreter::new(code);
    it.register_function(TestNative::PrintNumber(log.clone()), "f".to_string());
    assert_eq!(it.resolve_imports(), Ok(()));
    // The registry is frozen now: a late registration must not disturb the
    // already-bound slot.
    it.register_function(TestNative::Fail("late".to_string()), "f".to_string());
    assert_eq!(it.execute_function(&"main".to_string()), Ok(()));
    assert_eq!(*log.borrow(), vec!["printNumber:5".to_string()]);
}

#[test]
fn duplicate_missing_imports_are_each_reported() {
    let code = CodeHolder {
        instructions: vec![Instruction::Return],
        functions: vec![FunctionDef { name: "main".to_string(), entry: 0 }],
        imports: vec!["g".to_string(), "g".to_string()],
    };
    let mut it: Interpreter<TestNative> = Interpreter::new(code);
    assert_eq!(
        it.resolve_imports(),
        Err(RVMError::UnresolvedImportError(vec!["g".to_string(), "g".to_string()]))
    );
}

#[test]
fn duplicate_function_names_use_the_first_table_entry() {
    let log: Log = Rc::new(RefCell::new(Vec::new()));
    let code = CodeHolder {
        instructions: vec![
            // offset 0: first "main" prints 1
            Instruction::PushInt(1),
            Instruction::CallImport(0),
            Instruction::Return,
            // offset 3: second "main" prints 2
            Instruction::PushInt(2),
            Instruction::CallImport(0),
            Instruction::Return,
        ],
        functions: vec![
            FunctionDef { name: "main".to_string(), entry: 0 },
            FunctionDef { name: "main".to_string(), entry: 3 },
        ],
        imports: vec!["printNumber".to_string()],
    };
    let mut it: Interpreter<TestNative> = Interpreter::new(code);
    it.register_function(TestNative::PrintNumber(log.clone()), "printNumber".to_string());
    assert_eq!(it.resolve_imports(), Ok(()));
    assert_eq!(it.execute_function(&"main".to_string()), Ok(()));
    assert_eq!(*log.borrow(), vec!["printNumber:1".to_string()]);
}

#[test]
fn execution_starts_at_the_named_functions_entry() {
    let log: Log = Rc::new(RefCell::new(Vec::new()));
    let code = CodeHolder {
        instructions: vec![
            // offset 0: "noise" pushes and returns
            Instruction::PushInt(1),
            Instruction::Return,
            // offset 2: "greet" prints one text
            Instruction::PushText("yo".to_string()),
            Instruction::CallImport(0),
            Instruction::Return,
        ],
        functions: vec![
            FunctionDef { name: "noise".to_string(), entry: 0 },
            FunctionDef { name: "greet".to_string(), entry: 2 },
        ],
        imports: vec!["printString".to_string()],
    };
    let mut it: Interpreter<TestNative> = Interpreter::new(code);
    it.register_function(TestNative::PrintString(log.clone()), "printString".to_string());
    assert_eq!(it.resolve_imports(), Ok(()));
    assert_eq!(it.execute_function(&"greet".to_string()), Ok(()));
    assert_eq!(*log.borrow(), vec!["printString:yo".to_string()]);
}
