use regex::Regex;
use rusty_peg::classy::{
    Classy, ClassyBase, MemberDefn, CLASS, FIELD_DEFN, ID, MEMBER, METHOD_DEFN, TYPE_REF,
};
use rusty_peg::{Input, Symbol};

fn normalize_space(text: &str) {
    Regex::new(r"\s+").unwrap().replace_all(text, " ");
}

#[test]
fn parse_a_class() {
    let mut classy = Classy::new(ClassyBase::new());
    let (_, result) =
        CLASS.parse_prefix(
            &mut classy,
            "class x { f: u32; g: i32; h(i32) -> u32; }").unwrap();

    assert_eq!(
        normalize_space(&format!("{:#?}", result)),
        normalize_space("ClassDefn {
            name: \"x\",
            members: [
                Field(
                    FieldDefn {
                        name: \"f\",
                        ty: TypeRef {
                            id: \"u32\"
                        }
                    }
                    ),
                Field(
                    FieldDefn {
                        name: \"g\",
                        ty: TypeRef {
                            id: \"i32\"
                        }
                    }
                    ),
                Method(
                    MethodDefn {
                        name: \"h\",
                        arg_tys: [
                            TypeRef {
                                id: \"i32\"
                            }
                            ],
                        ret_ty: TypeRef {
                            id: \"u32\"
                        }
                    }
                    )
                ]
        }"));
}

#[test]
fn class_has_the_members_in_order() {
    let text = "class x { f: u32; g: i32; h(i32) -> u32; }";
    let mut classy = Classy::new(ClassyBase::new());
    let (rest, class) = CLASS.parse_prefix(&mut classy, text).unwrap();
    assert_eq!(rest.offset, text.len());
    assert_eq!(class.name, "x");
    assert_eq!(class.members.len(), 3);
    match &*class.members[0] {
        MemberDefn::Field(field) => {
            assert_eq!(field.name, "f");
            assert_eq!(field.ty.id, "u32");
        }
        MemberDefn::Method(_) => panic!("f is a field"),
    }
    match &*class.members[1] {
        MemberDefn::Field(field) => {
            assert_eq!(field.name, "g");
            assert_eq!(field.ty.id, "i32");
        }
        MemberDefn::Method(_) => panic!("g is a field"),
    }
    match &*class.members[2] {
        MemberDefn::Method(method) => {
            assert_eq!(method.name, "h");
            assert_eq!(method.arg_tys.len(), 1);
            assert_eq!(method.arg_tys[0].id, "i32");
            assert_eq!(method.ret_ty.id, "u32");
        }
        MemberDefn::Field(_) => panic!("h is a method"),
    }
}

#[test]
fn class_without_members() {
    let mut classy = Classy::new(ClassyBase::new());
    let (rest, class) = CLASS.parse_prefix(&mut classy, "class Empty {}").unwrap();
    assert_eq!(class.name, "Empty");
    assert!(class.members.is_empty());
    assert_eq!(rest.offset, 14);
}

#[test]
fn class_that_is_not_closed_fails_at_the_end() {
    let text = "class x { f: u32;";
    let mut classy = Classy::new(ClassyBase::new());
    let error = CLASS.parse_prefix(&mut classy, text).unwrap_err();
    assert_eq!(error.expected, "}");
    assert_eq!(error.offset, text.len());
}

#[test]
fn identifier_is_borrowed_from_the_text() {
    let text = "foo_1 bar";
    let mut classy = Classy::new(ClassyBase::new());
    let (rest, id) = ID.parse_prefix(&mut classy, text).unwrap();
    assert_eq!(id, "foo_1");
    assert_eq!(rest.offset, 5);
    assert_eq!(id.as_ptr(), text.as_ptr());
}

#[test]
fn identifier_does_not_start_on_white_space() {
    let text = " \t\n x1";
    let mut classy = Classy::new(ClassyBase::new());
    let error = ID.parse_prefix(&mut classy, text).unwrap_err();
    assert_eq!(error.expected, "identifier");
    assert_eq!(error.offset, 0);
    let error = ID.parse(&mut classy, Input { text, offset: 3 }).unwrap_err();
    assert_eq!(error.offset, 3);
    let (rest, id) = ID.parse(&mut classy, Input { text, offset: 4 }).unwrap();
    assert_eq!(id, "x1");
    assert_eq!(rest.offset, 6);
}

#[test]
fn identifier_is_the_text_between_the_two_cursors() {
    let text = "ab cd_9 ef";
    for offset in [0, 1, 3, 5, 8, 9] {
        let mut classy = Classy::new(ClassyBase::new());
        let (rest, id) = ID.parse(&mut classy, Input { text, offset }).unwrap();
        assert_eq!(id, &text[offset..rest.offset]);
        assert_eq!(id.len(), rest.offset - offset);
        assert_eq!(id.as_ptr(), text[offset..].as_ptr());
    }
}

#[test]
fn identifier_in_the_middle_of_the_text() {
    let text = "ab cd ef";
    let mut classy = Classy::new(ClassyBase::new());
    let (rest, id) = ID.parse(&mut classy, Input { text, offset: 3 }).unwrap();
    assert_eq!(id, "cd");
    assert_eq!(rest.offset, 5);
}

#[test]
fn keyword_is_no_identifier() {
    let mut classy = Classy::new(ClassyBase::new());
    let error = ID.parse_prefix(&mut classy, "class").unwrap_err();
    assert_eq!(error.expected, "identifier");
    assert_eq!(error.offset, 0);
}

#[test]
fn failure_lies_at_the_cursor() {
    let text = "  class x";
    let mut classy = Classy::new(ClassyBase::new());
    // White space, a keyword, white space again, and the end of the text.
    for offset in [0, 2, 7, 9] {
        let error = ID.parse(&mut classy, Input { text, offset }).unwrap_err();
        assert_eq!(error.expected, "identifier");
        assert_eq!(error.offset, offset);
    }
}

#[test]
fn white_space_may_come_before_a_type_and_inside_a_class() {
    let mut classy = Classy::new(ClassyBase::new());
    let (rest, ty) = TYPE_REF.parse_prefix(&mut classy, " \n u32;").unwrap();
    assert_eq!(ty.id, "u32");
    assert_eq!(rest.offset, 6);

    let text = "  class\tPoint{x:i32;\n  norm ( )->f64 ;}";
    let mut classy = Classy::new(ClassyBase::new());
    let (rest, class) = CLASS.parse_prefix(&mut classy, text).unwrap();
    assert_eq!(rest.offset, text.len());
    assert_eq!(class.name, "Point");
    assert_eq!(class.members.len(), 2);
    assert!(matches!(&*class.members[0], MemberDefn::Field(f) if f.name == "x"));
    assert!(matches!(
        &*class.members[1],
        MemberDefn::Method(m) if m.name == "norm" && m.arg_tys.is_empty() && m.ret_ty.id == "f64"
    ));
}

#[test]
fn class_needs_a_name_that_is_no_keyword() {
    let mut classy = Classy::new(ClassyBase::new());
    let error = CLASS.parse_prefix(&mut classy, "class class {}").unwrap_err();
    assert_eq!(error.expected, "identifier");
    assert_eq!(error.offset, 6);
}

#[test]
fn word_that_starts_with_a_keyword_is_an_identifier() {
    let mut classy = Classy::new(ClassyBase::new());
    let (_, id) = ID.parse_prefix(&mut classy, "classy").unwrap();
    assert_eq!(id, "classy");
}

#[test]
fn digit_starts_no_identifier() {
    let mut classy = Classy::new(ClassyBase::new());
    let error = ID.parse_prefix(&mut classy, "1abc").unwrap_err();
    assert_eq!(error.expected, "identifier");
    assert_eq!(error.offset, 0);
}

#[test]
fn identifier_stops_before_text_that_is_not_ascii() {
    let text = "na\u{ef}ve";
    let mut classy = Classy::new(ClassyBase::new());
    let (rest, id) = ID.parse_prefix(&mut classy, text).unwrap();
    assert_eq!(id, "na");
    assert_eq!(rest.offset, 2);
    let error = ID.parse(&mut classy, rest).unwrap_err();
    assert_eq!(error.offset, 2);
}

#[test]
fn empty_text_has_no_identifier() {
    let mut classy = Classy::new(ClassyBase::new());
    let error = ID.parse_prefix(&mut classy, "").unwrap_err();
    assert_eq!(error.expected, "identifier");
    assert_eq!(error.offset, 0);
}

#[test]
fn type_ref_is_an_identifier() {
    let mut classy = Classy::new(ClassyBase::new());
    let (_, ty) = TYPE_REF.parse_prefix(&mut classy, "u32;").unwrap();
    assert_eq!(ty.id, "u32");
}

#[test]
fn field_and_method_alone() {
    let mut classy = Classy::new(ClassyBase::new());
    let (rest, field) = FIELD_DEFN.parse_prefix(&mut classy, "f: u32;").unwrap();
    assert_eq!(rest.offset, 7);
    assert!(matches!(&*field, MemberDefn::Field(f) if f.name == "f" && f.ty.id == "u32"));

    let mut classy = Classy::new(ClassyBase::new());
    let text = "h(a b) -> c;";
    let (rest, method) = METHOD_DEFN.parse_prefix(&mut classy, text).unwrap();
    assert_eq!(rest.offset, text.len());
    match &*method {
        MemberDefn::Method(m) => {
            assert_eq!(m.name, "h");
            assert_eq!(m.arg_tys.len(), 2);
            assert_eq!(m.arg_tys[0].id, "a");
            assert_eq!(m.arg_tys[1].id, "b");
            assert_eq!(m.ret_ty.id, "c");
        }
        MemberDefn::Field(_) => panic!("h is a method"),
    }
}

#[test]
fn member_reports_the_farthest_failure() {
    // As a field the text fails at offset 1, as a method at offset 9.
    let mut classy = Classy::new(ClassyBase::new());
    let error = MEMBER.parse_prefix(&mut classy, "h(i32) ->;").unwrap_err();
    assert_eq!(error.expected, "identifier");
    assert_eq!(error.offset, 9);
}

#[test]
fn symbols_print_their_names() {
    assert_eq!(Symbol::<Classy>::pretty_print(&ID), "ID");
    assert_eq!(Symbol::<Classy>::pretty_print(&CLASS), "CLASS");
    assert_eq!(format!("{:?}", ID), "ID");
}
