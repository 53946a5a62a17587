use mdhtml::lexer::{
    tokenize, Bold, Code, Contents, Italic, Li, ListTypes, Pre, RootTags, Text, H1, H2, H3, P,
};

#[test]
fn test_tokenize() {
    let tests = [
        (
            "テキスト`コード`",
            vec![RootTags::P(P(vec![
                Contents::Text(Text("テキスト".to_string())),
                Contents::Code(Code("コード".to_string())),
            ]))],
        ),
        (
            "*イタリック*",
            vec![RootTags::P(P(vec![Contents::Italic(Italic(
                "イタリック".to_string(),
            ))]))],
        ),
        (
            "**ボールド**",
            vec![RootTags::P(P(vec![Contents::Bold(Bold(
                "ボールド".to_string(),
            ))]))],
        ),
        (
            "*イタリック***ボールド**",
            vec![RootTags::P(P(vec![
                Contents::Italic(Italic("イタリック".to_string())),
                Contents::Bold(Bold("ボールド".to_string())),
            ]))],
        ),
        (
            "テキスト*イタリック*`コード`**ボールド**",
            vec![RootTags::P(P(vec![
                Contents::Text(Text("テキスト".to_string())),
                Contents::Italic(Italic("イタリック".to_string())),
                Contents::Code(Code("コード".to_string())),
                Contents::Bold(Bold("ボールド".to_string())),
            ]))],
        ),
        ("# 見出し1", vec![RootTags::H1(H1("見出し1".to_string()))]),
        ("## 見出し2", vec![RootTags::H2(H2("見出し2".to_string()))]),
        ("### 見出し3", vec![RootTags::H3(H3("見出し3".to_string()))]),
        (
            "# 見出し1

## 見出し2

### 見出し3",
            vec![
                RootTags::H1(H1("見出し1".to_string())),
                RootTags::H2(H2("見出し2".to_string())),
                RootTags::H3(H3("見出し3".to_string())),
            ],
        ),
        (
            "段落\n",
            vec![RootTags::P(P(vec![Contents::Text(Text(
                "段落".to_string(),
            ))]))],
        ),
        (
            "# 見出し1

## 見出し2

### 見出し3

段落",
            vec![
                RootTags::H1(H1("見出し1".to_string())),
                RootTags::H2(H2("見出し2".to_string())),
                RootTags::H3(H3("見出し3".to_string())),
                RootTags::P(P(vec![Contents::Text(Text("段落".to_string()))])),
            ],
        ),
        (
            "- リスト",
            vec![RootTags::Li(vec![Li {
                list_type: ListTypes::Ul,
                indent: 0,
                contents: vec![Contents::Text(Text("リスト".to_string()))],
            }])],
        ),
        (
            "- リスト1
- リスト2",
            vec![RootTags::Li(vec![
                Li {
                    list_type: ListTypes::Ul,
                    indent: 0,
                    contents: vec![Contents::Text(Text("リスト1".to_string()))],
                },
                Li {
                    list_type: ListTypes::Ul,
                    indent: 0,
                    contents: vec![Contents::Text(Text("リスト2".to_string()))],
                },
            ])],
        ),
        (
            "- リスト1
- リスト2
\t- リスト2-1
\t- リスト2-2
",
            vec![RootTags::Li(vec![
                Li {
                    list_type: ListTypes::Ul,
                    indent: 0,
                    contents: vec![Contents::Text(Text("リスト1".to_string()))],
                },
                Li {
                    list_type: ListTypes::Ul,
                    indent: 0,
                    contents: vec![Contents::Text(Text("リスト2".to_string()))],
                },
                Li {
                    list_type: ListTypes::Ul,
                    indent: 1,
                    contents: vec![Contents::Text(Text("リスト2-1".to_string()))],
                },
                Li {
                    list_type: ListTypes::Ul,
                    indent: 1,
                    contents: vec![Contents::Text(Text("リスト2-2".to_string()))],
                },
            ])],
        ),
        (
            "- リスト1
- リスト2
  - リスト2-1
    - リスト2-1-1
  - リスト2-2
- リスト3
",
            vec![RootTags::Li(vec![
                Li {
                    list_type: ListTypes::Ul,
                    indent: 0,
                    contents: vec![Contents::Text(Text("リスト1".to_string()))],
                },
                Li {
                    list_type: ListTypes::Ul,
                    indent: 0,
                    contents: vec![Contents::Text(Text("リスト2".to_string()))],
                },
                Li {
                    list_type: ListTypes::Ul,
                    indent: 2,
                    contents: vec![Contents::Text(Text("リスト2-1".to_string()))],
                },
                Li {
                    list_type: ListTypes::Ul,
                    indent: 4,
                    contents: vec![Contents::Text(Text("リスト2-1-1".to_string()))],
                },
                Li {
                    list_type: ListTypes::Ul,
                    indent: 2,
                    contents: vec![Contents::Text(Text("リスト2-2".to_string()))],
                },
                Li {
                    list_type: ListTypes::Ul,
                    indent: 0,
                    contents: vec![Contents::Text(Text("リスト3".to_string()))],
                },
            ])],
        ),
        (
            "- テキスト*イタリック*`コード`**ボールド**",
            vec![RootTags::Li(vec![Li {
                list_type: ListTypes::Ul,
                indent: 0,
                contents: vec![
                    Contents::Text(Text("テキスト".to_string())),
                    Contents::Italic(Italic("イタリック".to_string())),
                    Contents::Code(Code("コード".to_string())),
                    Contents::Bold(Bold("ボールド".to_string())),
                ],
            }])],
        ),
        (
            "- テキスト*イタリック*`コード`**ボールド**
\t\t- テキスト*イタリック*`コード`**ボールド**",
            vec![RootTags::Li(vec![
                Li {
                    list_type: ListTypes::Ul,
                    indent: 0,
                    contents: vec![
                        Contents::Text(Text("テキスト".to_string())),
                        Contents::Italic(Italic("イタリック".to_string())),
                        Contents::Code(Code("コード".to_string())),
                        Contents::Bold(Bold("ボールド".to_string())),
                    ],
                },
                Li {
                    list_type: ListTypes::Ul,
                    indent: 2,
                    contents: vec![
                        Contents::Text(Text("テキスト".to_string())),
                        Contents::Italic(Italic("イタリック".to_string())),
                        Contents::Code(Code("コード".to_string())),
                        Contents::Bold(Bold("ボールド".to_string())),
                    ],
                },
            ])],
        ),
        (
            "1. テキスト*イタリック*`コード`**ボールド**",
            vec![RootTags::Li(vec![Li {
                list_type: ListTypes::Ol,
                indent: 0,
                contents: vec![
                    Contents::Text(Text("テキスト".to_string())),
                    Contents::Italic(Italic("イタリック".to_string())),
                    Contents::Code(Code("コード".to_string())),
                    Contents::Bold(Bold("ボールド".to_string())),
                ],
            }])],
        ),
        (
            "```
console.log('Hello, world!');
```
",
            vec![RootTags::Pre(Pre(
                "console.log('Hello, world!');\n".to_string()
            ))],
        ),
        (
            "```
const a = 1;
const b = 2;
add(a, b);
```
",
            vec![RootTags::Pre(Pre(
                "const a = 1;\nconst b = 2;\nadd(a, b);\n".to_string(),
            ))],
        ),
        (
            "# 見出し1
## 見出し2

段落1
段落2

- リスト1
- リスト2
- リスト3

段落3
",
            vec![
                RootTags::H1(H1("見出し1".to_string())),
                RootTags::H2(H2("見出し2".to_string())),
                RootTags::P(P(vec![Contents::Text(Text("段落1".to_string()))])),
                RootTags::P(P(vec![Contents::Text(Text("段落2".to_string()))])),
                RootTags::Li(vec![
                    Li {
                        list_type: ListTypes::Ul,
                        indent: 0,
                        contents: vec![Contents::Text(Text("リスト1".to_string()))],
                    },
                    Li {
                        list_type: ListTypes::Ul,
                        indent: 0,
                        contents: vec![Contents::Text(Text("リスト2".to_string()))],
                    },
                    Li {
                        list_type: ListTypes::Ul,
                        indent: 0,
                        contents: vec![Contents::Text(Text("リスト3".to_string()))],
                    },
                ]),
                RootTags::P(P(vec![Contents::Text(Text("段落3".to_string()))])),
            ],
        ),
        (
            "1. リスト",
            vec![RootTags::Li(vec![Li {
                list_type: ListTypes::Ol,
                indent: 0,
                contents: vec![Contents::Text(Text("リスト".to_string()))],
            }])],
        ),
        (
            "1リストではない段落",
            vec![RootTags::P(P(vec![Contents::Text(Text(
                "1リストではない段落".to_string(),
            ))]))],
        ),
        (
            "1. リスト1
1. リスト2",
            vec![RootTags::Li(vec![
                Li {
                    list_type: ListTypes::Ol,
                    indent: 0,
                    contents: vec![Contents::Text(Text("リスト1".to_string()))],
                },
                Li {
                    list_type: ListTypes::Ol,
                    indent: 0,
                    contents: vec![Contents::Text(Text("リスト2".to_string()))],
                },
            ])],
        ),
        (
            "1. リスト1
1. リスト2
\t1. リスト2-1
\t1. リスト2-2
",
            vec![RootTags::Li(vec![
                Li {
                    list_type: ListTypes::Ol,
                    indent: 0,
                    contents: vec![Contents::Text(Text("リスト1".to_string()))],
                },
                Li {
                    list_type: ListTypes::Ol,
                    indent: 0,
                    contents: vec![Contents::Text(Text("リスト2".to_string()))],
                },
                Li {
                    list_type: ListTypes::Ol,
                    indent: 1,
                    contents: vec![Contents::Text(Text("リスト2-1".to_string()))],
                },
                Li {
                    list_type: ListTypes::Ol,
                    indent: 1,
                    contents: vec![Contents::Text(Text("リスト2-2".to_string()))],
                },
            ])],
        ),
        (
            "1. リスト1
1. リスト2
  1. リスト2-1
    1. リスト2-1-1
  1. リスト2-2
1. リスト3
",
            vec![RootTags::Li(vec![
                Li {
                    list_type: ListTypes::Ol,
                    indent: 0,
                    contents: vec![Contents::Text(Text("リスト1".to_string()))],
                },
                Li {
                    list_type: ListTypes::Ol,
                    indent: 0,
                    contents: vec![Contents::Text(Text("リスト2".to_string()))],
                },
                Li {
                    list_type: ListTypes::Ol,
                    indent: 2,
                    contents: vec![Contents::Text(Text("リスト2-1".to_string()))],
                },
                Li {
                    list_type: ListTypes::Ol,
                    indent: 4,
                    contents: vec![Contents::Text(Text("リスト2-1-1".to_string()))],
                },
                Li {
                    list_type: ListTypes::Ol,
                    indent: 2,
                    contents: vec![Contents::Text(Text("リスト2-2".to_string()))],
                },
                Li {
                    list_type: ListTypes::Ol,
                    indent: 0,
                    contents: vec![Contents::Text(Text("リスト3".to_string()))],
                },
            ])],
        ),
        (
            "# 見出し1
## 見出し2

段落1

```
console.log('Hello, world!');
```

段落2

```
console.log('Hello, world!');
```

1. リスト1
1. リスト2
1. リスト3
- リスト1
- リスト2
- リスト3

```
console.log('Hello, world!');
```

段落3
",
            vec![
                RootTags::H1(H1("見出し1".to_string())),
                RootTags::H2(H2("見出し2".to_string())),
                RootTags::P(P(vec![Contents::Text(Text("段落1".to_string()))])),
                RootTags::Pre(Pre("console.log('Hello, world!');\n".to_string())),
                RootTags::P(P(vec![Contents::Text(Text("段落2".to_string()))])),
                RootTags::Pre(Pre("console.log('Hello, world!');\n".to_string())),
                RootTags::Li(vec![
                    Li {
                        list_type: ListTypes::Ol,
                        indent: 0,
                        contents: vec![Contents::Text(Text("リスト1".to_string()))],
                    },
                    Li {
                        list_type: ListTypes::Ol,
                        indent: 0,
                        contents: vec![Contents::Text(Text("リスト2".to_string()))],
                    },
                    Li {
                        list_type: ListTypes::Ol,
                        indent: 0,
                        contents: vec![Contents::Text(Text("リスト3".to_string()))],
                    },
                    Li {
                        list_type: ListTypes::Ul,
                        indent: 0,
                        contents: vec![Contents::Text(Text("リスト1".to_string()))],
                    },
                    Li {
                        list_type: ListTypes::Ul,
                        indent: 0,
                        contents: vec![Contents::Text(Text("リスト2".to_string()))],
                    },
                    Li {
                        list_type: ListTypes::Ul,
                        indent: 0,
                        contents: vec![Contents::Text(Text("リスト3".to_string()))],
                    },
                ]),
                RootTags::Pre(Pre("console.log('Hello, world!');\n".to_string())),
                RootTags::P(P(vec![Contents::Text(Text("段落3".to_string()))])),
            ],
        ),
    ];

    for (input, output) in tests {
        assert_eq!(tokenize(input), output);
    }
}
