use atomvchecker::ir::Callee;
use atomvchecker::ownership::{
    is_addr, is_arc, is_arc_or_rc_clone, is_atomic_operate, is_get_unchecked, is_null,
    is_ptr_operate, is_rc, is_smart_pointers,
};
use regex::Regex;

fn callee(path: &str, type_args: &[&str]) -> Callee {
    Callee {
        path: path.to_string(),
        path_with_args: path.to_string(),
        type_args: type_args.iter().map(|s| s.to_string()).collect(),
    }
}

#[test]
fn test_atomic_api_regex() {
    let line: usize = 177;
    let mut r = r"ident: (?P<title>[0-9a-zA-Z]*)[#0-9]*, hir_id:[\sA-Za-z0-9({:})~_]*\[[0-9a-zA-Z]*\][0-9a-zA-Z:),\s_)}(]*[{0-9a-zA-Z#}:), _()]*[\] }),]*span: [a-zA-Z/.:]*".to_string();
    let line = format!("{:?}", line);
    r = r + &line;
    let re: &str = &r[..];
    let re = Regex::new(re).unwrap();
    let haystack = "::{constructor#0})), segments: [PathSegment { ident: Relaxed#0, hir_id: Some(HirId { owner: DefId(0:58 ~ RUSTSEC_2022_0029[64b1]::{impl#3}::push), local_id: 205 }), res: Some(Err), args: None, infer_args: true }] })), span: src/main.rs:177:57:";
    match re.captures(haystack) {
        None => {}
        Some(caps) => {
            let ordering = caps["title"].to_string();
            println!("result:{:?}", ordering);
        }
    }
}

#[test]
fn arc_and_rc_are_told_by_their_prefix() {
    assert!(is_arc("std::sync::Arc<i32>"));
    assert!(!is_arc("std::sync::Arc"));
    assert!(!is_arc("alloc::sync::Arc<i32>"));
    assert!(!is_arc("x std::sync::Arc<i32>"));
    assert!(is_rc("std::rc::Rc<std::cell::Cell<u8>>"));
    assert!(!is_rc("std::sync::Arc<i32>"));
    assert!(!is_rc(""));
}

#[test]
fn clone_of_arc_or_rc_needs_the_path_and_one_argument() {
    assert!(is_arc_or_rc_clone(&callee("std::clone::Clone::clone", &["std::sync::Arc<i32>"])));
    assert!(is_arc_or_rc_clone(&callee("std::clone::Clone::clone", &["std::rc::Rc<i32>"])));
    assert!(!is_arc_or_rc_clone(&callee("std::clone::Clone::clone", &["std::vec::Vec<i32>"])));
    assert!(!is_arc_or_rc_clone(&callee("std::clone::Clone::clone", &[])));
    assert!(!is_arc_or_rc_clone(&callee(
        "std::clone::Clone::clone",
        &["std::sync::Arc<i32>", "std::sync::Arc<i32>"]
    )));
    assert!(!is_arc_or_rc_clone(&callee("std::clone::Clone::clone_from", &["std::sync::Arc<i32>"])));
    assert!(!is_arc_or_rc_clone(&callee("core::clone::Clone::clone", &["std::sync::Arc<i32>"])));
}

#[test]
fn paths_are_told_by_their_parts() {
    assert!(is_get_unchecked("core::slice::<impl [T]>::get_unchecked"));
    assert!(is_get_unchecked("core::slice::<impl [T]>::get_unchecked_mut"));
    assert!(!is_get_unchecked("core::slice::<impl [T]>::get"));
    assert!(is_addr("std::ptr::mut_ptr::<impl *mut T>::addr"));
    assert!(!is_addr("std::ptr::mut_ptr::<impl *mut T>::address"));
    assert!(is_null("std::ptr::mut_ptr::<impl *mut T>::is_null"));
    assert!(!is_null("std::ptr::null"));
    assert!(is_smart_pointers("std::boxed::Box::<T>::from_raw"));
    assert!(is_smart_pointers("std::sync::Arc::<T>::into_raw"));
    assert!(!is_smart_pointers("std::boxed::Box::<T>::new"));
}

#[test]
fn atomic_operations_are_told_by_the_pattern() {
    assert!(is_atomic_operate("std::sync::atomic::AtomicUsize::load"));
    assert!(is_atomic_operate("core::sync::atomic::AtomicBool::compare_exchange_weak"));
    assert!(is_atomic_operate("std::sync::atomic::AtomicPtr::<Node>::store"));
    assert!(is_atomic_operate("std::sync::atomic::AtomicUsize::fetch_add"));
    assert!(is_atomic_operate("std::sync::atomic::AtomicUsize::compare_and_swap"));
    assert!(!is_atomic_operate("std::sync::atomic::AtomicUsize::new"));
    assert!(!is_atomic_operate("std::sync::atomic::fence"));
    assert!(!is_atomic_operate("my::std::sync::atomic::AtomicUsize::load"));
    assert!(is_atomic_operate("std::sync::atomic::AtomicUsize::fetch_and"));
    assert!(!is_atomic_operate("std::sync::atomic::AtomicUsize::fetch_min"));
}

#[test]
fn pointer_operations_are_told_by_pattern_or_prefix() {
    assert!(is_ptr_operate("std::ptr::mut_ptr::<impl *mut T>::add"));
    assert!(is_ptr_operate("std::ptr::mut_ptr::<impl *mut T>::offset"));
    assert!(is_ptr_operate("std::ptr::read::<u8>"));
    assert!(!is_ptr_operate("std::ptr::const_ptr::<impl *const T>::add"));
    assert!(!is_ptr_operate("std::ptr::write::<u8>"));
    assert!(!is_ptr_operate("core::ptr::read::<u8>"));
}
