use vertex_lang::compiler::ir_datatype::IRDataType;
use vertex_lang::registry::error::RegistryError;
use vertex_lang::registry::function::{FuncMeta, FunctionRegistry, VertexFunction};

fn meta(name: &str, id: usize) -> FuncMeta {
    FuncMeta::new(
        name.to_string(),
        VertexFunction { id },
        vec![IRDataType::Int, IRDataType::Int],
        IRDataType::Int,
    )
    .unwrap()
}

#[test]
fn registered_functions_are_found_by_name() {
    let mut registry = FunctionRegistry::new();
    assert_eq!(registry.register(meta("Add", 1)), Ok(()));
    assert_eq!(registry.register(meta("Mul", 2)), Ok(()));
    assert_eq!(registry.len(), 2);
    assert_eq!(registry.find_function("Mul"), Some(1));
    assert_eq!(registry.find_function("Sub"), None);
    let found = registry.get_function("Add").unwrap();
    assert_eq!(found.get_name(), "Add");
    assert_eq!(found.get_func(), VertexFunction { id: 1 });
    assert_eq!(found.get_inputs(), &vec![IRDataType::Int, IRDataType::Int]);
    assert_eq!(found.get_output(), &IRDataType::Int);
    assert!(registry.get_function("add").is_none());
    assert_eq!(registry.function_at(1).get_name(), "Mul");
}

#[test]
fn duplicate_names_are_rejected() {
    let mut registry = FunctionRegistry::new();
    registry.register(meta("Add", 1)).unwrap();
    assert_eq!(
        registry.register(meta("Add", 2)),
        Err(RegistryError::FunctionAlreadyExists(String::from("Add")))
    );
    assert_eq!(registry.len(), 1);
    assert_eq!(registry.get_function("Add").unwrap().get_func(), VertexFunction { id: 1 });
    assert_eq!(
        RegistryError::FunctionAlreadyExists(String::from("Add")).to_text(),
        "Function `Add` already exists"
    );
}

#[test]
fn unresolved_signatures_are_rejected() {
    let unresolved = FuncMeta::new(
        String::from("F"),
        VertexFunction { id: 0 },
        vec![IRDataType::Int, IRDataType::Unresolved(String::from("Point"))],
        IRDataType::Int,
    );
    assert_eq!(unresolved, Err(RegistryError::UnresolvedDataType));
    let unknown = FuncMeta::new(String::from("F"), VertexFunction { id: 0 }, vec![], IRDataType::Unknown);
    assert_eq!(unknown, Err(RegistryError::UnresolvedDataType));
    assert_eq!(
        RegistryError::UnresolvedDataType.to_text(),
        "Cannot use unresolved data types in function metadata"
    );
    let r: Result<u8, RegistryError> = RegistryError::UnresolvedDataType.err();
    assert_eq!(r, Err(RegistryError::UnresolvedDataType));
}
