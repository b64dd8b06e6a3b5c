use bae::kind::{IntType, Kind, Value};
use bae::locate::Annotation;
use bae::meta::{enum_attribute, from_attributes, EnumDecl, FieldDecl, Producer, RecordDecl, VariantDecl};
use bae::record::{FromAttributesMeta, Record};
use bae::syntax::SynType;
use bae::token::Spacing;
use bae::{Delim, Span, Tok};
use proc_macro2::{Delimiter, TokenStream, TokenTree};
use syn::parse::Parser;

fn flatten(ts: TokenStream, out: &mut Vec<Tok>) {
    for tt in ts {
        match tt {
            TokenTree::Group(g) => {
                let d = match g.delimiter() {
                    Delimiter::Parenthesis => Delim::Paren,
                    Delimiter::Bracket => Delim::Bracket,
                    Delimiter::Brace => Delim::Brace,
                    Delimiter::None => {
                        flatten(g.stream(), out);
                        continue;
                    }
                };
                out.push(Tok::Open(d));
                flatten(g.stream(), out);
                out.push(Tok::Close(d));
            }
            TokenTree::Ident(i) => out.push(Tok::Ident(i.to_string())),
            TokenTree::Punct(p) => out.push(Tok::Punct(
                p.as_char(),
                if p.spacing() == proc_macro2::Spacing::Joint { Spacing::Joint } else { Spacing::Alone },
            )),
            TokenTree::Literal(l) => out.push(Tok::Lit(l.to_string())),
        }
    }
}

fn annotations(src: &str) -> Vec<Annotation> {
    let attrs = syn::Attribute::parse_outer.parse_str(src).unwrap();
    attrs
        .into_iter()
        .map(|a| {
            let mut tokens = Vec::new();
            flatten(a.tokens, &mut tokens);
            Annotation { name: a.path.get_ident().map(|i| i.to_string()), tokens }
        })
        .collect()
}

fn field(name: &str, kind: Kind) -> FieldDecl {
    FieldDecl { ident: Some(name.to_string()), kind, annotations: Vec::new(), type_default: None }
}

fn field_with(name: &str, kind: Kind, meta: &str, type_default: Option<Value>) -> FieldDecl {
    FieldDecl { ident: Some(name.to_string()), kind, annotations: annotations(meta), type_default }
}

fn opt(k: Kind) -> Kind {
    Kind::Optional(Box::new(k))
}

fn record(ident: &str, fields: Vec<FieldDecl>) -> FromAttributesMeta {
    from_attributes(RecordDecl { ident: ident.to_string(), annotations: Vec::new(), fields }, &Vec::new()).unwrap()
}

fn basic_shape() -> FromAttributesMeta {
    record(
        "MyAttr",
        vec![
            field("str", Kind::LitStr),
            field("optional_int_given", opt(Kind::LitInt)),
            field("optional_int_ignored", opt(Kind::LitInt)),
            field("switch_given", opt(Kind::Switch)),
            field("switch_ignored", opt(Kind::Switch)),
        ],
    )
}

fn lit_str_value(v: &Value) -> String {
    match v {
        Value::Lit(s) => syn::parse_str::<syn::LitStr>(s).unwrap().value(),
        other => panic!("not a literal: {:?}", other),
    }
}

fn lit_text(v: &Value) -> String {
    match v {
        Value::Lit(s) => s.clone(),
        other => panic!("not a literal: {:?}", other),
    }
}

fn some(v: &Value) -> &Value {
    match v {
        Value::Opt(Some(b)) => b,
        other => panic!("not present: {:?}", other),
    }
}

fn is_none(v: &Value) -> bool {
    matches!(v, Value::Opt(None))
}

fn tokens_source(t: &[Tok]) -> String {
    let mut s = String::new();
    let mut prev_word = false;
    for tok in t {
        let (text, word) = match tok {
            Tok::Ident(x) => (x.clone(), true),
            Tok::Lit(x) => (x.clone(), true),
            Tok::Punct(c, _) => (c.to_string(), false),
            Tok::Open(Delim::Paren) => ("(".to_string(), false),
            Tok::Close(Delim::Paren) => (")".to_string(), false),
            Tok::Open(Delim::Bracket) => ("[".to_string(), false),
            Tok::Close(Delim::Bracket) => ("]".to_string(), false),
            Tok::Open(Delim::Brace) => ("{".to_string(), false),
            Tok::Close(Delim::Brace) => ("}".to_string(), false),
        };
        if prev_word && word {
            s.push(' ');
        }
        s.push_str(&text);
        if text == "," {
            s.push(' ');
        }
        prev_word = word;
    }
    s
}

fn tree_tokens(v: &Value) -> String {
    match v {
        Value::Tree(t) => {
            let src = tokens_source(t);
            let ts: TokenStream = src.parse().unwrap();
            ts.to_string()
        }
        other => panic!("not a tree: {:?}", other),
    }
}

fn int_value(v: &Value) -> i128 {
    match v {
        Value::Int { negative, magnitude } => {
            if *negative {
                -(*magnitude as i128)
            } else {
                *magnitude as i128
            }
        }
        other => panic!("not an integer: {:?}", other),
    }
}

fn parse(shape: &FromAttributesMeta, src: &str) -> Result<Record, String> {
    shape.from_attributes(&annotations(src)).map_err(|d| d.to_text())
}

#[test]
fn test_basic_test() {
    let attr = parse(&basic_shape(), r#"#[my_attr(str = "123", optional_int_given = 456, switch_given)]"#).unwrap();
    assert_eq!(lit_str_value(&attr.values[0]), "123");
    assert_eq!(lit_text(some(&attr.values[1])), "456");
    assert!(is_none(&attr.values[2]));
    assert!(matches!(some(&attr.values[3]), Value::Unit));
    assert!(is_none(&attr.values[4]));
}

#[test]
fn test_attr_argument_duplicate_test() {
    let err = parse(
        &basic_shape(),
        r#"#[my_attr(str = "123", optional_int_given = 456, switch_given, str = "789")]"#,
    )
    .unwrap_err();
    assert_eq!(err, "`#[my_attr]` argument `str` specified multiple times");
}

#[test]
fn test_attr_duplicate_test() {
    let err = parse(
        &basic_shape(),
        r#"#[my_attr(str = "123", optional_int_given = 456, switch_given)]
           #[my_attr(str = "123", optional_int_given = 456, switch_given)]"#,
    )
    .unwrap_err();
    assert_eq!(err, "duplicate attribute `#[my_attr]`");
}

#[test]
fn test_bae_attrs_test() {
    let not_default_able_two = Value::Choice("Two".to_string());
    let producers = vec![
        Producer { path: "skipped_non_default_able_default".to_string(), value: not_default_able_two },
        Producer {
            path: "defaulted_default".to_string(),
            value: Value::Opt(Some(Box::new(Value::Lit("\"default\"".to_string())))),
        },
    ];
    let item = RecordDecl {
        ident: "MyAttr".to_string(),
        annotations: annotations("#[bae(name = test_attr)]"),
        fields: vec![
            field("normal", Kind::LitStr),
            field_with("renamed", Kind::LitInt, "#[bae(name = rename_test)]", None),
            field_with("skipped_switch", opt(Kind::Switch), "#[bae(skip)]", Some(Value::Opt(None))),
            field_with("skipped_non_default_able", Kind::Ident, "#[bae(skip, default = skipped_non_default_able_default)]", None),
            field_with("defaulted_given", opt(Kind::LitStr), "#[bae(default = defaulted_default)]", None),
            field_with("defaulted_ignored", opt(Kind::LitStr), "#[bae(default = defaulted_default)]", None),
        ],
    };
    let shape = from_attributes(item, &producers).unwrap();
    let attr = parse(&shape, r#"#[test_attr(normal = "123", rename_test = 456, defaulted_given = "789")]"#).unwrap();
    assert_eq!(lit_str_value(&attr.values[0]), "123");
    assert_eq!(lit_text(&attr.values[1]), "456");
    assert!(is_none(&attr.values[2]));
    assert!(matches!(&attr.values[3], Value::Choice(c) if c == "Two"));
    assert_eq!(lit_str_value(some(&attr.values[4])), "789");
    assert_eq!(lit_str_value(some(&attr.values[5])), "default");
}

fn enum_shape() -> FromAttributesMeta {
    let item = EnumDecl {
        ident: "MyEnumAttribute".to_string(),
        annotations: Vec::new(),
        variants: vec![
            VariantDecl { ident: "First".to_string(), unit: true, annotations: Vec::new() },
            VariantDecl { ident: "Second".to_string(), unit: true, annotations: Vec::new() },
            VariantDecl { ident: "Skipped".to_string(), unit: true, annotations: annotations("#[bae(skip)]") },
        ],
    };
    let kind = enum_attribute(&item).unwrap();
    record("MyAttr", vec![field("my_enum", kind)])
}

#[test]
fn test_enum_attribute_test() {
    let attr = parse(&enum_shape(), "#[my_attr(my_enum = First)]").unwrap();
    assert!(matches!(&attr.values[0], Value::Choice(c) if c == "First"));
}

#[test]
fn test_skipped() {
    let err = parse(&enum_shape(), "#[my_attr(my_enum = Skipped)]").unwrap_err();
    assert_eq!(err, "Invalid value, supported values are `First`, `Second`");
}

#[test]
fn test_fn_call_test_basic() {
    let fixed = record(
        "MyAttrFixed",
        vec![
            field("fn_call_fixed", Kind::FnCallFixed(vec![Kind::Syn(SynType::ExprPath), Kind::LitStr, Kind::LitInt])),
            field("optional_fn_call_fixed", opt(Kind::FnCallFixed(vec![Kind::Syn(SynType::ExprPath), Kind::LitStr, Kind::LitInt]))),
            field("fn_call_fixed_optional_arg", Kind::FnCallFixed(vec![opt(Kind::Syn(SynType::ExprPath)), Kind::LitStr, opt(Kind::Int(IntType::U64))])),
        ],
    );
    let my_attr_fixed = parse(
        &fixed,
        r#"#[my_attr_fixed(fn_call_fixed(::my::path, "123", 456), fn_call_fixed_optional_arg(None, "Test", Some(42)))]"#,
    )
    .unwrap();
    let fn_call_fixed = match &my_attr_fixed.values[0] {
        Value::Fixed(f) => &f.inner,
        other => panic!("{:?}", other),
    };
    assert_eq!(tree_tokens(&fn_call_fixed[0]), ":: my :: path");
    assert_eq!(lit_str_value(&fn_call_fixed[1]), "123");
    assert_eq!(lit_text(&fn_call_fixed[2]), "456");
    assert!(is_none(&my_attr_fixed.values[1]));
    let optional_arg = match &my_attr_fixed.values[2] {
        Value::Fixed(f) => &f.inner,
        other => panic!("{:?}", other),
    };
    assert!(is_none(&optional_arg[0]));
    assert_eq!(lit_str_value(&optional_arg[1]), "Test");
    assert_eq!(int_value(some(&optional_arg[2])), 42);

    let var_args = record(
        "MyAttrVarArgs",
        vec![
            field("fn_call_var_args", Kind::FnCallVarArgs(Box::new(Kind::Syn(SynType::ExprPath)))),
            field("optional_fn_call_var_args", opt(Kind::FnCallVarArgs(Box::new(Kind::LitStr)))),
            field("fn_call_var_args_optional_arg", Kind::FnCallVarArgs(Box::new(opt(Kind::Int(IntType::U64))))),
            field("fn_call_var_args_expr", Kind::FnCallVarArgs(Box::new(Kind::Syn(SynType::Expr)))),
        ],
    );
    let my_attr_var_args = parse(
        &var_args,
        r#"#[my_attr_var_args(
            fn_call_var_args(::my::path, another::Path, yes, ::std::fs::File),
            fn_call_var_args_optional_arg(Some(999), None, Some(12345), Some(999999999)),
            fn_call_var_args_expr(hello_world(123), test, doot::doooot, 999, 3.141),
        )]"#,
    )
    .unwrap();
    let list = |v: &Value| -> Vec<String> {
        match v {
            Value::VarArgs(f) => f.inner.iter().map(tree_tokens).collect(),
            other => panic!("{:?}", other),
        }
    };
    let fn_call_var_args = list(&my_attr_var_args.values[0]);
    assert_eq!(fn_call_var_args.len(), 4);
    assert_eq!(fn_call_var_args[0], ":: my :: path");
    assert_eq!(fn_call_var_args[1], "another :: Path");
    assert_eq!(fn_call_var_args[2], "yes");
    assert_eq!(fn_call_var_args[3], ":: std :: fs :: File");
    assert!(is_none(&my_attr_var_args.values[1]));
    let optional = match &my_attr_var_args.values[2] {
        Value::VarArgs(f) => &f.inner,
        other => panic!("{:?}", other),
    };
    assert_eq!(optional.len(), 4);
    assert_eq!(int_value(some(&optional[0])), 999);
    assert!(is_none(&optional[1]));
    assert_eq!(int_value(some(&optional[2])), 12345);
    assert_eq!(int_value(some(&optional[3])), 999999999);
    let exprs = list(&my_attr_var_args.values[3]);
    assert_eq!(exprs.len(), 5);
    assert_eq!(exprs[0], "hello_world (123)");
    assert_eq!(exprs[1], "test");
    assert_eq!(exprs[2], "doot :: doooot");
    assert_eq!(exprs[3], "999");
    assert_eq!(exprs[4], "3.141");
}

#[test]
fn test_parse_test_basic() {
    let shape = record(
        "MyAttr",
        vec![
            field("string", Kind::Text),
            field("optional_string", opt(Kind::Text)),
            field("num_u8", Kind::Int(IntType::U8)),
            field("num_u16", Kind::Int(IntType::U16)),
            field("num_u32", Kind::Int(IntType::U32)),
            field("num_u64", Kind::Int(IntType::U64)),
            field("num_u128", Kind::Int(IntType::U128)),
            field("num_usize", Kind::Int(IntType::Usize)),
            field("optional_num_f32", opt(Kind::LitFloat)),
            field("expr_path", Kind::Syn(SynType::ExprPath)),
            field("expr_call", Kind::Syn(SynType::ExprCall)),
        ],
    );
    let attr = parse(
        &shape,
        r#"#[my_attr(
            string = "012",
            num_u8 = 255,
            num_u16 = 16535,
            num_u32 = 999999,
            num_u64 = 9999999,
            num_u128 = 99999999,
            num_usize = 99999999usize,
            optional_num_f32 = 3.141,
            expr_path = ::std::default::Default,
            expr_call = my_function(my_arg)
        )]"#,
    )
    .unwrap();
    assert!(matches!(&attr.values[0], Value::Text(s) if s == "012"));
    assert!(is_none(&attr.values[1]));
    assert_eq!(int_value(&attr.values[2]), 255);
    assert_eq!(int_value(&attr.values[3]), 16535);
    assert_eq!(int_value(&attr.values[4]), 999999);
    assert_eq!(int_value(&attr.values[5]), 9999999);
    assert_eq!(int_value(&attr.values[6]), 99999999);
    assert_eq!(int_value(&attr.values[7]), 99999999);
    assert_eq!(lit_text(some(&attr.values[8])).parse::<f32>().ok(), Some(3.141));
    assert_eq!(tree_tokens(&attr.values[9]), ":: std :: default :: Default");
    assert_eq!(tree_tokens(&attr.values[10]), "my_function (my_arg)");
}

fn slice(tokens: &[Tok], span: Span) -> String {
    tokens_source(&tokens[span.lo..span.hi])
}

#[test]
fn test_spanned_value() {
    let spanned = |k: Kind| Kind::Spanned(Box::new(k));
    let shape = record(
        "MyAttr",
        vec![
            field("string", spanned(Kind::Text)),
            field("optional_int_given", opt(spanned(Kind::Int(IntType::U16)))),
            field("optional_int_ignored", opt(spanned(Kind::Int(IntType::U32)))),
            field(
                "optional_fn_call_fixed",
                opt(spanned(Kind::FnCallFixed(vec![Kind::Syn(SynType::ExprPath), Kind::LitStr, Kind::LitInt]))),
            ),
        ],
    );
    let s = "#[my_attr(string = \"123\", optional_int_given = 456, optional_fn_call_fixed(::syn::parse, \"789\", 012))]";
    let attrs = annotations(s);
    let tokens = &attrs[0].tokens;
    let attr = shape.from_attributes(&attrs).unwrap();
    let sv = |v: &Value| match v {
        Value::Spanned(x) => (x.inner.as_ref().clone_view(), x.span(), x.key_span()),
        other => panic!("{:?}", other),
    };
    let (string, string_span, string_key) = sv(&attr.values[0]);
    assert_eq!(string, "123");
    let (int_given, int_span, int_key) = sv(some(&attr.values[1]));
    assert_eq!(int_given, "456");
    assert!(is_none(&attr.values[2]));
    let (_, call_span, call_key) = sv(some(&attr.values[3]));
    let call = match some(&attr.values[3]) {
        Value::Spanned(x) => match x.inner.as_ref() {
            Value::Fixed(f) => f.inner.iter().map(|v| v.clone_view()).collect::<Vec<_>>(),
            other => panic!("{:?}", other),
        },
        other => panic!("{:?}", other),
    };
    assert_eq!(call[0], ":: syn :: parse");
    assert_eq!(call[1], "789");
    assert_eq!(call[2], "12");
    assert_eq!(slice(tokens, string_key), "string");
    assert_eq!(slice(tokens, string_span), "\"123\"");
    assert_eq!(slice(tokens, int_key), "optional_int_given");
    assert_eq!(slice(tokens, int_span), "456");
    assert_eq!(slice(tokens, call_key), "optional_fn_call_fixed");
    assert_eq!(slice(tokens, call_span), "::syn::parse, \"789\", 012");
}

trait ShowValue {
    fn clone_view(&self) -> String;
}

impl ShowValue for Value {
    fn clone_view(&self) -> String {
        match self {
            Value::Text(s) => s.clone(),
            Value::Int { .. } => int_value(self).to_string(),
            Value::Lit(s) => match syn::parse_str::<syn::LitStr>(s) {
                Ok(l) => l.value(),
                Err(_) => syn::parse_str::<syn::LitInt>(s).unwrap().base10_digits().to_string(),
            },
            Value::Tree(_) => tree_tokens(self),
            other => format!("{:?}", other),
        }
    }
}

#[test]
fn unknown_argument_lists_fields_sorted() {
    let err = parse(&basic_shape(), r#"#[my_attr(str = "1", bogus = 2)]"#).unwrap_err();
    assert_eq!(
        err,
        "`#[my_attr]` got unknown `bogus` argument. Supported arguments are `optional_int_given`, `optional_int_ignored`, `str`, `switch_given`, `switch_ignored`"
    );
}

#[test]
fn missing_required_argument() {
    let err = parse(&basic_shape(), "#[my_attr(switch_given)]").unwrap_err();
    assert_eq!(err, "`#[my_attr]` is missing `str` argument");
}

#[test]
fn missing_renamed_argument_names_the_rename() {
    let item = RecordDecl {
        ident: "Renamed".to_string(),
        annotations: Vec::new(),
        fields: vec![field_with("inner", Kind::LitInt, "#[bae(name = outer)]", None)],
    };
    let shape = from_attributes(item, &Vec::new()).unwrap();
    assert_eq!(parse(&shape, "#[renamed()]").unwrap_err(), "`#[renamed]` is missing `outer` argument");
    let err = parse(&shape, "#[renamed(inner = 1)]").unwrap_err();
    assert_eq!(err, "`#[renamed]` got unknown `inner` argument. Supported arguments are `inner`");
}

#[test]
fn missing_attribute() {
    let shape = basic_shape();
    assert_eq!(parse(&shape, "#[other(str = \"1\")]").unwrap_err(), "missing attribute `#[my_attr]`");
    assert!(shape.try_from_attributes(&annotations("#[other(x)]")).unwrap().is_none());
}

#[test]
fn three_matching_annotations_give_a_duplicate_message_at_each() {
    let shape = basic_shape();
    let d = shape
        .try_from_attributes(&annotations(r#"#[my_attr(str = "1")] #[other] #[my_attr(str = "2")] #[my_attr(str = "3")]"#))
        .unwrap_err();
    assert_eq!(d.messages.len(), 3);
    assert!(d.messages.iter().all(|m| m.text == "duplicate attribute `#[my_attr]`"));
    let origins: Vec<usize> = d.messages.iter().map(|m| m.origin).collect();
    assert_eq!(origins, vec![0, 2, 3]);
}

#[test]
fn body_errors_are_combined_across_annotations() {
    let shape = basic_shape();
    let d = shape.try_from_attributes(&annotations("#[my_attr(bogus)] #[my_attr(str = 5)]")).unwrap_err();
    assert_eq!(d.messages.len(), 2);
    assert!(d.messages[0].text.starts_with("`#[my_attr]` got unknown `bogus` argument"));
    assert_eq!(d.messages[1].text, "expected string literal");
}

#[test]
fn arguments_in_any_order_give_the_same_values() {
    let shape = basic_shape();
    let a = parse(&shape, r#"#[my_attr(switch_given, optional_int_given = 456, str = "123")]"#).unwrap();
    let b = parse(&shape, r#"#[my_attr(str = "123", switch_given, optional_int_given = 456,)]"#).unwrap();
    assert_eq!(lit_str_value(&a.values[0]), lit_str_value(&b.values[0]));
    assert_eq!(lit_text(some(&a.values[1])), lit_text(some(&b.values[1])));
    assert!(is_none(&a.values[2]) && is_none(&b.values[2]));
    assert!(matches!(some(&a.values[3]), Value::Unit) && matches!(some(&b.values[3]), Value::Unit));
}

#[test]
fn parsing_twice_gives_the_same_record() {
    let shape = basic_shape();
    let src = r#"#[my_attr(str = "123", optional_int_given = 456)]"#;
    let a = parse(&shape, src).unwrap();
    let b = parse(&shape, src).unwrap();
    assert_eq!(format!("{:?}", a), format!("{:?}", b));
}

#[test]
fn missing_equals_sign() {
    assert_eq!(parse(&basic_shape(), r#"#[my_attr(str "1")]"#).unwrap_err(), "expected `=`");
}

#[test]
fn annotation_without_arguments() {
    assert_eq!(parse(&basic_shape(), "#[my_attr]").unwrap_err(), "expected parentheses");
}

#[test]
fn integer_limits() {
    let shape = record("Ints", vec![field("a", opt(Kind::Int(IntType::U8))), field("b", opt(Kind::Int(IntType::I8)))]);
    let r = parse(&shape, "#[ints(a = 255, b = -128)]").unwrap();
    assert_eq!(int_value(some(&r.values[0])), 255);
    assert_eq!(int_value(some(&r.values[1])), -128);
    assert_eq!(parse(&shape, "#[ints(a = 256)]").unwrap_err(), "number too large to fit in target type");
    assert_eq!(parse(&shape, "#[ints(b = -129)]").unwrap_err(), "number too small to fit in target type");
    assert_eq!(parse(&shape, "#[ints(a = -1)]").unwrap_err(), "invalid digit found in string");
    assert_eq!(parse(&shape, "#[ints(b = 128)]").unwrap_err(), "number too large to fit in target type");
    assert_eq!(parse(&shape, "#[ints(a = \"1\")]").unwrap_err(), "expected integer literal");
}

#[test]
fn text_value_resolves_escapes() {
    let shape = record("T", vec![field("s", Kind::Text)]);
    let r = parse(&shape, r#"#[t(s = "a\"b\n")]"#).unwrap();
    assert!(matches!(&r.values[0], Value::Text(s) if s == "a\"b\n"));
}

#[test]
fn optional_call_argument_variants() {
    let shape = record("C", vec![field("f", Kind::FnCallFixed(vec![opt(Kind::LitStr)]))]);
    assert_eq!(parse(&shape, "#[c(f(Maybe))]").unwrap_err(), "Invalid optional variant");
    let r = parse(&shape, r#"#[c(f(Some("x")))]"#).unwrap();
    match &r.values[0] {
        Value::Fixed(f) => assert_eq!(lit_str_value(some(&f.inner[0])), "x"),
        other => panic!("{:?}", other),
    }
}

#[test]
fn call_arity_errors() {
    let fixed = record("C", vec![field("f", Kind::FnCallFixed(vec![Kind::LitInt]))]);
    assert_eq!(parse(&fixed, "#[c(f(1, 2))]").unwrap_err(), "Too many arguments");
    assert_eq!(parse(&fixed, "#[c(f())]").unwrap_err(), "expected integer literal");
    assert!(parse(&fixed, "#[c(f(1,))]").is_ok());
    let var = record("V", vec![field("f", Kind::FnCallVarArgs(Box::new(Kind::LitInt)))]);
    assert_eq!(parse(&var, "#[v(f(1 2))]").unwrap_err(), "Invalid arguments");
    match &parse(&var, "#[v(f())]").unwrap().values[0] {
        Value::VarArgs(f) => assert!(f.inner.is_empty()),
        other => panic!("{:?}", other),
    }
}

#[test]
fn unnamed_field_is_rejected() {
    let item = RecordDecl {
        ident: "MyAttr".to_string(),
        annotations: Vec::new(),
        fields: vec![FieldDecl { ident: None, kind: Kind::LitStr, annotations: Vec::new(), type_default: None }],
    };
    assert_eq!(from_attributes(item, &Vec::new()).unwrap_err().to_text(), "Field without a name");
}

#[test]
fn unknown_producer_is_rejected() {
    let item = RecordDecl {
        ident: "MyAttr".to_string(),
        annotations: Vec::new(),
        fields: vec![field_with("a", opt(Kind::LitStr), "#[bae(default = ::a::b)]", None)],
    };
    assert_eq!(
        from_attributes(item, &Vec::new()).unwrap_err().to_text(),
        "cannot find function `::a::b` in this scope"
    );
}

#[test]
fn non_unit_variant_is_rejected() {
    let item = EnumDecl {
        ident: "E".to_string(),
        annotations: Vec::new(),
        variants: vec![
            VariantDecl { ident: "A".to_string(), unit: false, annotations: Vec::new() },
            VariantDecl { ident: "B".to_string(), unit: false, annotations: Vec::new() },
        ],
    };
    let d = enum_attribute(&item).unwrap_err();
    assert_eq!(d.to_text(), "Only Unit variants are supported");
    assert_eq!(d.messages.len(), 2);
}

#[test]
fn bad_meta_annotation_is_reported() {
    let item = RecordDecl {
        ident: "MyAttr".to_string(),
        annotations: annotations("#[bae(nme = x)]"),
        fields: Vec::new(),
    };
    assert_eq!(
        from_attributes(item, &Vec::new()).unwrap_err().to_text(),
        "`#[bae]` got unknown `nme` argument. Supported arguments are `name`"
    );
}

#[test]
fn skipped_field_takes_type_default_and_rejects_argument() {
    let item = RecordDecl {
        ident: "Skips".to_string(),
        annotations: Vec::new(),
        fields: vec![field_with("hidden", Kind::LitInt, "#[bae(skip)]", Some(Value::Lit("7".to_string())))],
    };
    let shape = from_attributes(item, &Vec::new()).unwrap();
    assert_eq!(lit_text(&parse(&shape, "#[skips()]").unwrap().values[0]), "7");
    assert!(parse(&shape, "#[skips(hidden = 1)]").unwrap_err().starts_with("`#[skips]` got unknown `hidden` argument"));
    let no_default = RecordDecl {
        ident: "Skips".to_string(),
        annotations: Vec::new(),
        fields: vec![field_with("hidden", Kind::LitInt, "#[bae(skip)]", None)],
    };
    assert_eq!(
        from_attributes(no_default, &Vec::new()).unwrap_err().to_text(),
        "skipped field `hidden` has no default value"
    );
}

#[test]
fn spanned_default_and_trailing_tokens() {
    let shape = record("S", vec![field("o", Kind::Spanned(Box::new(opt(Kind::LitInt))))]);
    match &parse(&shape, "#[s()]").unwrap().values[0] {
        Value::Spanned(x) => {
            assert!(matches!(x.inner.as_ref(), Value::Opt(None)));
            assert_eq!(x.span(), Span::call_site());
        }
        other => panic!("{:?}", other),
    }
    assert_eq!(parse(&shape, "#[s() extra]").unwrap_err(), "unexpected token");
}

#[test]
fn c_string_literal_is_rejected_without_panic() {
    let shape = record("C", vec![field("s", Kind::LitStr), field("t", opt(Kind::Text)), field("n", opt(Kind::Int(IntType::U8)))]);
    assert_eq!(parse(&shape, r#"#[c(s = c"x")]"#).unwrap_err(), "expected string literal");
    assert_eq!(parse(&shape, r#"#[c(s = "a", t = c"x")]"#).unwrap_err(), "expected string literal");
    assert_eq!(parse(&shape, r#"#[c(s = "a", n = c"x")]"#).unwrap_err(), "expected integer literal");
}

#[test]
fn every_failing_field_is_reported() {
    let unnamed = || FieldDecl { ident: None, kind: Kind::LitStr, annotations: Vec::new(), type_default: None };
    let item = RecordDecl { ident: "MyAttr".to_string(), annotations: Vec::new(), fields: vec![unnamed(), field("ok", Kind::LitStr), unnamed()] };
    let d = from_attributes(item, &Vec::new()).unwrap_err();
    assert_eq!(d.messages.len(), 2);
    assert!(d.messages.iter().all(|m| m.text == "Field without a name" && m.span == Span::call_site()));
    let item = RecordDecl {
        ident: "MyAttr".to_string(),
        annotations: Vec::new(),
        fields: vec![
            field_with("a", Kind::LitStr, "#[bae(bogus)]", None),
            field_with("b", opt(Kind::LitStr), "#[bae(default = nowhere)]", None),
        ],
    };
    let d = from_attributes(item, &Vec::new()).unwrap_err();
    assert_eq!(d.messages.len(), 2);
    assert!(d.messages[0].text.starts_with("`#[bae]` got unknown `bogus` argument"));
    assert_eq!(d.messages[1].text, "cannot find function `nowhere` in this scope");
    let inception = bae::from_attributes_inception(RecordDecl {
        ident: "Bae".to_string(),
        annotations: Vec::new(),
        fields: vec![unnamed(), unnamed()],
    });
    assert_eq!(inception.unwrap_err().messages.len(), 2);
}

#[test]
fn missing_attribute_is_at_the_call_site() {
    let d = basic_shape().from_attributes(&annotations("#[other]")).unwrap_err();
    assert_eq!(d.messages[0].span, Span::call_site());
}

#[test]
fn syntax_fragments_are_parsed_by_syn() {
    let shape = record(
        "S",
        vec![
            field("ty", opt(Kind::Syn(SynType::Type))),
            field("f", opt(Kind::Syn(SynType::ExprClosure))),
            field("path", opt(Kind::Syn(SynType::Path))),
            field("flag", opt(Kind::Syn(SynType::LitBool))),
        ],
    );
    let r = parse(&shape, "#[s(ty = HashMap<K, V>, f = |a, b| a + b, path = ::a::b)]").unwrap();
    assert_eq!(tree_tokens(some(&r.values[0])), "HashMap < K , V >");
    assert_eq!(tree_tokens(some(&r.values[1])), "| a , b | a + b");
    assert_eq!(tree_tokens(some(&r.values[2])), ":: a :: b");
    let r = parse(&shape, "#[s(flag = true)]").unwrap();
    assert_eq!(tree_tokens(some(&r.values[3])), "true");
    assert!(parse(&shape, "#[s(flag = 5)]").is_err());
    assert!(parse(&shape, "#[s(path = 1 +)]").is_err());
}

#[test]
fn keywords_are_not_identifiers() {
    let shape = record("K", vec![field("name", opt(Kind::Ident))]);
    assert_eq!(parse(&shape, "#[k(name = fn)]").unwrap_err(), "expected identifier");
    assert_eq!(parse(&shape, "#[k(type = x)]").unwrap_err(), "expected identifier");
    assert!(matches!(some(&parse(&shape, "#[k(name = r#fn)]").unwrap().values[0]), Value::Ident(_)));
}

#[test]
fn syn_type_names() {
    assert_eq!(SynType::from_name("ExprPath"), Some(SynType::ExprPath));
    assert_eq!(SynType::from_name("Type"), Some(SynType::Type));
    assert_eq!(SynType::from_name("Nope"), None);
}
