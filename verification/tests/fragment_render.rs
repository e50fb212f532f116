use liveview_native_core::diff::fragment::{
    Child, ChildDiff, Component, ComponentDiff, ComponentStatics, Fragment, FragmentDiff, FragmentMerge, OneOrManyStrings,
    Root, RootDiff, Statics, StreamAttribute, Templates,
};
use serde_json::Value;

// The wire form of a diff is JSON; these helpers read it into the library's
// types the way the protocol lays it out ("s" statics, "d" dynamics,
// "p" templates, "c" components, "r" reply flag, "stream", "newRender").

fn strings(v: &Value) -> Option<Vec<String>> {
    v.as_array()?.iter().map(|s| s.as_str().map(|s| s.to_string())).collect()
}

fn one_or_many(v: &Value) -> Option<OneOrManyStrings> {
    match v {
        Value::String(s) => Some(OneOrManyStrings::One(s.clone())),
        Value::Array(_) => strings(v).map(OneOrManyStrings::Many),
        _ => None,
    }
}

fn int32(v: &Value) -> Option<i32> {
    v.as_i64().and_then(|n| i32::try_from(n).ok())
}

fn statics(v: &Value) -> Option<Statics> {
    match v {
        Value::String(s) => Some(Statics::String(s.clone())),
        Value::Array(_) => strings(v).map(Statics::Statics),
        _ => int32(v).map(Statics::TemplateRef),
    }
}

fn templates(m: &serde_json::Map<String, Value>) -> Option<Templates> {
    match m.get("p") {
        None | Some(Value::Null) => Some(None),
        Some(Value::Object(p)) => {
            let mut out = Vec::new();
            for (k, v) in p {
                out.push((k.clone(), strings(v)?));
            }
            Some(Some(out))
        }
        _ => None,
    }
}

fn opt_statics(m: &serde_json::Map<String, Value>) -> Option<Option<Statics>> {
    match m.get("s") {
        None | Some(Value::Null) => Some(None),
        Some(v) => statics(v).map(Some),
    }
}

fn reply(m: &serde_json::Map<String, Value>) -> Option<Option<i8>> {
    match m.get("r") {
        None | Some(Value::Null) => Some(None),
        Some(v) => v.as_i64().and_then(|n| i8::try_from(n).ok()).map(Some),
    }
}

const FRAGMENT_KEYS: [&str; 6] = ["s", "r", "p", "d", "stream", "newRender"];

fn stream_attribute(v: &Value) -> Option<StreamAttribute> {
    match v {
        Value::String(s) => Some(StreamAttribute::StreamID(s.clone())),
        Value::Bool(b) => Some(StreamAttribute::ResetStream(*b)),
        Value::Array(items) => {
            let inserts: Option<Vec<(String, i32, Option<i32>)>> = items
                .iter()
                .map(|i| {
                    let t = i.as_array()?;
                    if t.len() != 3 {
                        return None;
                    }
                    let limit = if t[2].is_null() { None } else { Some(int32(&t[2])?) };
                    Some((t[0].as_str()?.to_string(), int32(&t[1])?, limit))
                })
                .collect();
            match inserts {
                Some(ins) => Some(StreamAttribute::Inserts(ins)),
                None => strings(v).map(StreamAttribute::DeleteIDs),
            }
        }
        _ => None,
    }
}

fn fragment_diff(v: &Value) -> Option<FragmentDiff> {
    let m = v.as_object()?;
    if let Some(d) = m.get("d") {
        let mut dynamics = Vec::new();
        for row in d.as_array()? {
            let mut out = Vec::new();
            for c in row.as_array()? {
                out.push(child_diff(c)?);
            }
            dynamics.push(out);
        }
        let stream = match m.get("stream") {
            None | Some(Value::Null) => None,
            Some(s) => Some(s.as_array()?.iter().map(stream_attribute).collect::<Option<Vec<_>>>()?),
        };
        return Some(FragmentDiff::UpdateComprehension {
            dynamics,
            templates: templates(m)?,
            statics: opt_statics(m)?,
            is_root: reply(m)?,
            stream,
        });
    }
    let mut children = Vec::new();
    for (k, c) in m {
        if !FRAGMENT_KEYS.contains(&k.as_str()) {
            children.push((k.clone(), child_diff(c)?));
        }
    }
    Some(FragmentDiff::UpdateRegular { children, statics: opt_statics(m)?, is_root: reply(m)? })
}

fn child_diff(v: &Value) -> Option<ChildDiff> {
    match v {
        Value::Object(_) => fragment_diff(v).map(ChildDiff::Fragment),
        Value::Number(_) => int32(v).map(ChildDiff::ComponentID),
        _ => one_or_many(v).map(ChildDiff::String),
    }
}

fn child(v: &Value) -> Option<Child> {
    match v {
        Value::Object(m) => {
            if let Some(d) = m.get("d") {
                let mut dynamics = Vec::new();
                for row in d.as_array()? {
                    let mut out = Vec::new();
                    for c in row.as_array()? {
                        out.push(child(c)?);
                    }
                    dynamics.push(out);
                }
                return Some(Child::Fragment(Fragment::Comprehension {
                    dynamics,
                    statics: opt_statics(m)?,
                    is_root: reply(m)?,
                    templates: templates(m)?,
                    stream: None,
                    new_render: None,
                }));
            }
            let mut children = Vec::new();
            for (k, c) in m {
                if !FRAGMENT_KEYS.contains(&k.as_str()) {
                    children.push((k.clone(), child(c)?));
                }
            }
            Some(Child::Fragment(Fragment::Regular { statics: opt_statics(m)?, is_root: reply(m)?, children, new_render: None }))
        }
        Value::Number(_) => int32(v).map(Child::ComponentID),
        _ => one_or_many(v).map(Child::String),
    }
}

fn component_diff(v: &Value) -> Option<ComponentDiff> {
    let m = v.as_object()?;
    let comp_statics = match m.get("s") {
        Some(Value::Array(_)) => strings(&m["s"]).map(ComponentStatics::Statics),
        Some(s) => int32(s).map(ComponentStatics::ComponentRef),
        None => None,
    };
    if let Some(cs) = comp_statics {
        let mut children = Vec::new();
        for (k, c) in m {
            if k != "s" && k != "r" && k != "newRender" {
                children.push((k.clone(), child(c)?));
            }
        }
        return Some(ComponentDiff::ReplaceCurrent { children, statics: cs, new_render: None, is_root: reply(m)? });
    }
    let mut children = Vec::new();
    for (k, c) in m {
        if k != "r" {
            children.push((k.clone(), child_diff(c)?));
        }
    }
    Some(ComponentDiff::UpdateRegular { children, is_root: reply(m)? })
}

fn parse_root_diff(json: &str) -> RootDiff {
    let v: Value = serde_json::from_str(json).expect("Failed to parse JSON");
    let mut m = v.as_object().expect("a diff is an object").clone();
    let components = match m.remove("c") {
        Some(Value::Object(c)) => c.iter().map(|(k, d)| (k.clone(), component_diff(d).expect("component diff"))).collect(),
        _ => Vec::new(),
    };
    let new_render = m.remove("newRender").and_then(|b| b.as_bool());
    let fragment = fragment_diff(&Value::Object(m)).expect("Failed to deserialize fragment");
    RootDiff { new_render, fragment, components }
}

// Equality of trees up to the order of keyed entries, as the protocol's
// maps have no order.
fn canon_strings(v: &[String]) -> String {
    format!("{:?}", v)
}

fn canon_statics(s: &Option<Statics>) -> String {
    format!("{:?}", s)
}

fn canon_child(c: &Child) -> String {
    match c {
        Child::Fragment(f) => format!("F({})", canon_fragment(f)),
        Child::ComponentID(i) => format!("C({})", i),
        Child::String(s) => format!("S({:?})", s),
    }
}

fn canon_entries(v: &[(String, Child)]) -> String {
    let mut items: Vec<String> = v.iter().map(|(k, c)| format!("{}={}", k, canon_child(c))).collect();
    items.sort();
    items.join(",")
}

fn canon_templates(t: &Templates) -> String {
    match t {
        None => "none".to_string(),
        Some(v) => {
            let mut items: Vec<String> = v.iter().map(|(k, s)| format!("{}={}", k, canon_strings(s))).collect();
            items.sort();
            items.join(",")
        }
    }
}

fn canon_fragment(f: &Fragment) -> String {
    match f {
        Fragment::Regular { statics, is_root, children, new_render } => {
            format!("R[{}|{:?}|{}|{:?}]", canon_statics(statics), is_root, canon_entries(children), new_render)
        }
        Fragment::Comprehension { dynamics, statics, is_root, templates, stream, new_render } => {
            let rows: Vec<String> = dynamics.iter().map(|r| r.iter().map(canon_child).collect::<Vec<_>>().join(";")).collect();
            format!(
                "D[{}|{}|{:?}|{}|{:?}|{:?}]",
                rows.join("/"),
                canon_statics(statics),
                is_root,
                canon_templates(templates),
                stream,
                new_render
            )
        }
    }
}

fn canon_component(c: &Component) -> String {
    format!("{}|{:?}|{:?}", canon_entries(&c.children), c.statics, c.is_root)
}

fn canon_root(r: &Root) -> String {
    let mut comps: Vec<String> = r.components.iter().map(|(k, c)| format!("{}={}", k, canon_component(c))).collect();
    comps.sort();
    format!("{:?}|{}|{}", r.new_render, canon_fragment(&r.fragment), comps.join(","))
}

fn to_root(diff: RootDiff) -> Root {
    Root::try_from_diff(diff).expect("Failed to convert RootDiff to Root")
}
#[test]
fn jetpack_show_dialog() {
    /*
     * Diffs coming from this template:
  @impl true
  @spec render(any) :: Phoenix.LiveView.Rendered.t()
  def render(%{platform_id: :jetpack} = assigns) do
    ~JETPACK"""
    <Scaffold>
      <TopAppBar>
        <Title><Text>Hello</Text></Title>
      </TopAppBar>
      <FloatingActionButton phx-click="inc">
        <Icon imageVector="filled:Add" />
      </FloatingActionButton>
      <Column width="fill" verticalArrangement="center" horizontalAlignment="center" scroll="vertical">
        <OutlinedButton phx-click="showDialog"><Text>Show Dialog</Text></OutlinedButton>
        <%= if @showDialog do %>
        <AlertDialog phx-click="hideDialog">
          <ConfirmButton>
              <TextButton  phx-click="hideDialog">
                <Text>Confirm</Text>
              </TextButton>
          </ConfirmButton>
          <DismissButton>
            <OutlinedButton phx-click="hideDialog">
              <Text>Dismiss</Text>
            </OutlinedButton>
          </DismissButton>
          <Icon imageVector="filled:Add" />
          <Title>Alert Title</Title>
          <Content>
              <Text>Alert message</Text>
          </Content>
        </AlertDialog>
        <% end %>
        <Box size="100" contentAlignment="center">
          <BadgeBox containerColor="#FF0000FF" contentColor="#FFFF0000">
            <Badge><Text>+99</Text></Badge>
            <Icon imageVector="filled:Add" />
          </BadgeBox>
        </Box>
        <ElevatedButton phx-click="showDialog"><Text>ElevatedButton</Text></ElevatedButton>
        <FilledTonalButton phx-click="showDialog"><Text>FilledTonalButton</Text></FilledTonalButton>
        <TextButton phx-click="showDialog"><Text>TextButton</Text></TextButton>

      </Column>
    </Scaffold>
    """
  end

    */
    let initial = r#"{
    "0":"",
    "s":[
      "<Scaffold>\n  <TopAppBar>\n    <Title><Text>Hello</Text></Title>\n  </TopAppBar>\n  <FloatingActionButton phx-click=\"inc\">\n    <Icon imageVector=\"filled:Add\"></Icon>\n  </FloatingActionButton>\n  <Column width=\"fill\" verticalArrangement=\"center\" horizontalAlignment=\"center\" scroll=\"vertical\">\n    <OutlinedButton phx-click=\"showDialog\"><Text>Show Dialog</Text></OutlinedButton>\n",
      "\n    <Box size=\"100\" contentAlignment=\"center\">\n      <BadgeBox containerColor=\"\\#FF0000FF\" contentColor=\"\\#FFFF0000\">\n        <Badge><Text>+99</Text></Badge>\n        <Icon imageVector=\"filled:Add\"></Icon>\n      </BadgeBox>\n    </Box>\n    <ElevatedButton phx-click=\"showDialog\"><Text>ElevatedButton</Text></ElevatedButton>\n    <FilledTonalButton phx-click=\"showDialog\"><Text>FilledTonalButton</Text></FilledTonalButton>\n    <TextButton phx-click=\"showDialog\"><Text>TextButton</Text></TextButton>\n\n  </Column>\n</Scaffold>"
      ]
      }
    "#;
    let root: RootDiff = parse_root_diff(initial);
    let root: Root = to_root(root);
    let out : String = root.render().expect("Failed to render root as string");
    let expected = r#"<Scaffold>
  <TopAppBar>
    <Title><Text>Hello</Text></Title>
  </TopAppBar>
  <FloatingActionButton phx-click="inc">
    <Icon imageVector="filled:Add"></Icon>
  </FloatingActionButton>
  <Column width="fill" verticalArrangement="center" horizontalAlignment="center" scroll="vertical">
    <OutlinedButton phx-click="showDialog"><Text>Show Dialog</Text></OutlinedButton>

    <Box size="100" contentAlignment="center">
      <BadgeBox containerColor="\#FF0000FF" contentColor="\#FFFF0000">
        <Badge><Text>+99</Text></Badge>
        <Icon imageVector="filled:Add"></Icon>
      </BadgeBox>
    </Box>
    <ElevatedButton phx-click="showDialog"><Text>ElevatedButton</Text></ElevatedButton>
    <FilledTonalButton phx-click="showDialog"><Text>FilledTonalButton</Text></FilledTonalButton>
    <TextButton phx-click="showDialog"><Text>TextButton</Text></TextButton>

  </Column>
</Scaffold>"#;
    assert_eq!(expected, out);

    let increment = r#"{
    "0":{
        "s":["\n    <AlertDialog phx-click=\"hideDialog\">\n      <ConfirmButton>\n          <TextButton phx-click=\"hideDialog\">\n            <Text>Confirm</Text>\n          </TextButton>\n      </ConfirmButton>\n      <DismissButton>\n        <OutlinedButton phx-click=\"hideDialog\">\n          <Text>Dismiss</Text>\n        </OutlinedButton>\n      </DismissButton>\n      <Icon imageVector=\"filled:Add\"></Icon>\n      <Title>Alert Title</Title>\n      <Content>\n          <Text>Alert message</Text>\n      </Content>\n    </AlertDialog>\n"
        ]
    }
}
"#;
    let diff: RootDiff = parse_root_diff(increment);

    let root = root.merge(diff).expect("Failed to merge diff");
    let out : String = root.render().expect("Failed to render root as string");
    let expected = r#"<Scaffold>
  <TopAppBar>
    <Title><Text>Hello</Text></Title>
  </TopAppBar>
  <FloatingActionButton phx-click="inc">
    <Icon imageVector="filled:Add"></Icon>
  </FloatingActionButton>
  <Column width="fill" verticalArrangement="center" horizontalAlignment="center" scroll="vertical">
    <OutlinedButton phx-click="showDialog"><Text>Show Dialog</Text></OutlinedButton>

    <AlertDialog phx-click="hideDialog">
      <ConfirmButton>
          <TextButton phx-click="hideDialog">
            <Text>Confirm</Text>
          </TextButton>
      </ConfirmButton>
      <DismissButton>
        <OutlinedButton phx-click="hideDialog">
          <Text>Dismiss</Text>
        </OutlinedButton>
      </DismissButton>
      <Icon imageVector="filled:Add"></Icon>
      <Title>Alert Title</Title>
      <Content>
          <Text>Alert message</Text>
      </Content>
    </AlertDialog>

    <Box size="100" contentAlignment="center">
      <BadgeBox containerColor="\#FF0000FF" contentColor="\#FFFF0000">
        <Badge><Text>+99</Text></Badge>
        <Icon imageVector="filled:Add"></Icon>
      </BadgeBox>
    </Box>
    <ElevatedButton phx-click="showDialog"><Text>ElevatedButton</Text></ElevatedButton>
    <FilledTonalButton phx-click="showDialog"><Text>FilledTonalButton</Text></FilledTonalButton>
    <TextButton phx-click="showDialog"><Text>TextButton</Text></TextButton>

  </Column>
</Scaffold>"#;
    assert_eq!(out, expected);
}
#[test]
fn jetpack_more_edge_cases() {
    let initial = r#"{
  "0":"0",
  "1":"0",
  "2":"",
  "s":[
    "<Column>\n  <Button phx-click=\"inc\">\n    <Text>Button</Text>\n  </Button>\n  <Text>Static Text </Text>\n  <Text>Counter 1: ",
    " </Text>\n  <Text>Counter 2: ",
    " </Text>\n  ",
    "\n</Column>"
    ]
}"#;
    let root: RootDiff = parse_root_diff(initial);
    let root: Root = to_root(root);
    let increment = r#"{
  "0":"1",
  "1":"1",
  "2":{
      "0":{
          "s":[
              "\n      <Text fontWeight=\"W600\" fontSize=\"24\">Item ",
              "!!!</Text>\n      ","\n      ",
              "\n    "
          ],
          "p":{
              "0":[
                  "\n        <Text color=\" #FFFF0000\">Number = ",
                  " + 3 is even</Text>\n      "
              ],
              "1":[
                  "\n        <Text>Number + 4 = ",
                  " is odd</Text>\n      "
              ]
          },
          "d":[[
            "1",
            {"0":"1","s":0},
            {"0":"5","s":1}]]
        },
        "1":"101",
        "s":[
          "\n    ",
          "\n    <Text>Number + 100 is ",
          "</Text>\n  "
        ]
  }
}"#;
    let diff: RootDiff = parse_root_diff(increment);
    let root = root.merge(diff).expect("Failed to merge diff into root");
    let _out : String = root.render().expect("Failed to convert root to string");
    let increment = r#"{
  "0":"2",
  "1":"2",
  "2":{
    "0":{
      "p":{
        "0":[
          "\n        <Text color=\" #FFFF0000\">Number = ",
          " + 3 is even</Text>\n      "
        ],
        "1":[
          "\n        <Text>Number + 4 = ",
          " is odd</Text>\n      "
        ],
        "2":[
          "\n        <Text color=\" #FF0000FF\">Number = ",
          " + 3 is odd</Text>\n      "
        ],
        "3":[
          "\n        <Text>Number + 4 = ",
          " is even</Text>\n      "
        ]
      },
      "d":[
        [
          "1",
          {"0":"1","s":0},
          {"0":"5","s":1}
        ],[
          "2",
          {"0":"2","s":2},
          {"0":"6","s":3}
        ]
      ]
    },
    "1":"102"
  }
}"#;
    let diff: RootDiff = parse_root_diff(increment);
    let root = root.merge(diff).expect("Failed to merge diff into root");
    let _out : String = root.render().expect("Failed to convert root to string");
}

#[test]
fn jetpack_complex() {
    /*

  The incremental diffs for this test came from this template:
  @impl true
  def render(%{platform_id: :jetpack} = assigns) do
    ~JETPACK"""
    <Column>
      <Button phx-click="inc">
        <Text>Increment</Text>
      </Button>
      <Button phx-click="dec">
        <Text>Decrement</Text>
      </Button>
      <Text>Static Text </Text>
      <Text>Counter 1: <%= @val %> </Text>
      <Text>Counter 2: <%= @val %> </Text>
      <%= if @val > 0 do %>
        <%= for x <- 1..@val do %>
          <Text fontWeight="W600" fontSize="24">Item <%= x %>!!!</Text>
          <%= if rem(x+3,2) == 0 do %>
            <Text color="#FFFF0000">Number = <%= x %> + 3 is even</Text>
          <% else %>
            <Text color="#FF0000FF">Number = <%= x %> + 3 is odd</Text>
          <% end %>
          <%= if rem(x+4,2) == 0 do %>
            <Text>Number + 4 = <%= x+4 %> is even</Text>
          <% else %>
            <Text>Number + 4 = <%= x+4 %> is odd</Text>
          <% end %>
        <% end %>
        <Text>Number + 100 is <%= @val+100 %></Text>
      <% end %>
    </Column>
    """
  end
     */
    let initial = r#"{
  "0":"0",
  "1":"0",
  "2":"",
  "s":[
    "<Column>\n  <Button phx-click=\"inc\">\n    <Text>Increment</Text>\n  </Button>\n  <Button phx-click=\"dec\">\n    <Text>Decrement</Text>\n  </Button>\n  <Text>Static Text </Text>\n  <Text>Counter 1: ",
    " </Text>\n  <Text>Counter 2: ",
    " </Text>\n",
    "\n</Column>"
  ]
}
"#;
    let root: RootDiff = parse_root_diff(initial);
    let root: Root = to_root(root);
    let _out : String = root.render().expect("Failed to convert root to string");
    let increment = r#"{
  "0":"1",
  "1":"1",
  "2":{
    "0":{
      "s":[
        "\n      <Text fontWeight=\"W600\" fontSize=\"24\">Item ",
        "!!!</Text>\n",
        "\n",
        "\n"
      ],
      "p":{
         "0":[
           "\n        <Text color=\" #FFFF0000\">Number = ",
           " + 3 is even</Text>\n"
         ],
         "1":[
           "\n        <Text>Number + 4 = ",
           " is odd</Text>\n"
           ]
      },
      "d":[["1",{"0":"1","s":0},{"0":"5","s":1}]]
    },
    "1":"101",
    "s":[
      "\n",
      "\n    <Text>Number + 100 is ","</Text>\n"
    ]
  }
}
    "#;
    let new_diff : RootDiff = parse_root_diff(increment);
    let root = root.merge(new_diff).expect("Failed to merge new root in");
    let _out : String = root.render().expect("Failed to convert root to string");
let increment = r#"{
  "0":"2",
  "1":"2",
  "2":{
    "0":{
      "p":{
        "0":[
          "\n        <Text color=\" #FFFF0000\">Number = ",
          " + 3 is even</Text>\n"
        ],
        "1":[
          "\n        <Text>Number + 4 = ",
          " is odd</Text>\n"
        ],
        "2":[
          "\n        <Text color=\" #FF0000FF\">Number = ",
          " + 3 is odd</Text>\n"
        ],
        "3":[
          "\n        <Text>Number + 4 = ",
          " is even</Text>\n"
        ]
      },
      "d":[
        ["1",{"0":"1","s":0},{"0":"5","s":1}],
        ["2",{"0":"2","s":2},{"0":"6","s":3}]
      ]
    },
    "1":"102"
  }
}"#;
    let new_diff : RootDiff = parse_root_diff(increment);
    let root = root.merge(new_diff).expect("Failed to merge new root in");
    let out : String = root.render().expect("Failed to convert root to string");
    let expected = r#"<Column>
  <Button phx-click="inc">
    <Text>Increment</Text>
  </Button>
  <Button phx-click="dec">
    <Text>Decrement</Text>
  </Button>
  <Text>Static Text </Text>
  <Text>Counter 1: 2 </Text>
  <Text>Counter 2: 2 </Text>


      <Text fontWeight="W600" fontSize="24">Item 1!!!</Text>

        <Text color=" #FFFF0000">Number = 1 + 3 is even</Text>


        <Text>Number + 4 = 5 is odd</Text>


      <Text fontWeight="W600" fontSize="24">Item 2!!!</Text>

        <Text color=" #FF0000FF">Number = 2 + 3 is odd</Text>


        <Text>Number + 4 = 6 is even</Text>


    <Text>Number + 100 is 102</Text>

</Column>"#;
    assert_eq!(out, expected);

}

#[test]
fn jetpack_simple_counter() {
    let initial_json = r#"{
        "0":"0",
        "s":["<Scaffold>\n  <TopAppBar>\n    <Title><Text>Hello</Text></Title>\n  </TopAppBar>\n  <Column width=\"fill\" verticalArrangement=\"center\" horizontalAlignment=\"center\">\n    <Text style=\"headlineLarge\">Title</Text>\n    <Card shape=\"8\" padding=\"16\" width=\"140\" height=\"120\" elevation=\"{'defaultElevation': '10', 'pressedElevation': '2'}\" phx-click=\"dec\">\n      <Text padding=\"16\">Hello Jetpack!</Text>\n    </Card>\n    <Spacer height=\"8\"></Spacer>\n    <Card padding=\"16\">\n      <Text padding=\"16\">Simple card</Text>\n    </Card>\n    <Button phx-click=\"navigate\" contentPadding=\"50\" elevation=\"{'defaultElevation': '20', 'pressedElevation': '10'}\">\n      <Text>Navigate to counter</Text>\n    </Button>\n    <Button phx-click=\"redirect\"><Text>Redirect to counter</Text></Button>\n    <IconButton phx-click=\"inc\" colors=\"{'containerColor': '#FFFF0000', 'contentColor': '#FFFFFFFF'}\">\n      <Icon imageVector=\"filled:Add\"></Icon>\n    </IconButton>\n    <Row verticalAlignment=\"center\">\n      <Button phx-click=\"dec\" shape=\"circle\" size=\"60\">\n        <Text>-</Text>\n      </Button>\n      <Text>This counter: ","</Text>\n      <Button phx-click=\"inc\" shape=\"circle\" size=\"60\"><Text>+</Text></Button>\n    </Row>\n  </Column>\n</Scaffold>"]}"#;
    let root: RootDiff = parse_root_diff(initial_json);
    let root: Root = to_root(root);
    let increment_diff = r#"{"0": "1"}"#;
    let other_root : RootDiff = parse_root_diff(increment_diff);
    let new_root = root.merge(other_root).expect("Failed to merge new root in");
    let expected_root = r#"{
        "0":"1",
        "s":["<Scaffold>\n  <TopAppBar>\n    <Title><Text>Hello</Text></Title>\n  </TopAppBar>\n  <Column width=\"fill\" verticalArrangement=\"center\" horizontalAlignment=\"center\">\n    <Text style=\"headlineLarge\">Title</Text>\n    <Card shape=\"8\" padding=\"16\" width=\"140\" height=\"120\" elevation=\"{'defaultElevation': '10', 'pressedElevation': '2'}\" phx-click=\"dec\">\n      <Text padding=\"16\">Hello Jetpack!</Text>\n    </Card>\n    <Spacer height=\"8\"></Spacer>\n    <Card padding=\"16\">\n      <Text padding=\"16\">Simple card</Text>\n    </Card>\n    <Button phx-click=\"navigate\" contentPadding=\"50\" elevation=\"{'defaultElevation': '20', 'pressedElevation': '10'}\">\n      <Text>Navigate to counter</Text>\n    </Button>\n    <Button phx-click=\"redirect\"><Text>Redirect to counter</Text></Button>\n    <IconButton phx-click=\"inc\" colors=\"{'containerColor': '#FFFF0000', 'contentColor': '#FFFFFFFF'}\">\n      <Icon imageVector=\"filled:Add\"></Icon>\n    </IconButton>\n    <Row verticalAlignment=\"center\">\n      <Button phx-click=\"dec\" shape=\"circle\" size=\"60\">\n        <Text>-</Text>\n      </Button>\n      <Text>This counter: ","</Text>\n      <Button phx-click=\"inc\" shape=\"circle\" size=\"60\"><Text>+</Text></Button>\n    </Row>\n  </Column>\n</Scaffold>"]}"#;
    let expected_root: RootDiff = parse_root_diff(expected_root);
    let expected_root: Root = to_root(expected_root);
    assert_eq!(canon_root(&expected_root), canon_root(&new_root));

    let _out : String = new_root.render().expect("Failed to convert root to string");

    }

#[test]
fn fragment_render_parse() {
    let root = Root {
        new_render: None,
        fragment: Fragment::Regular {
            children: vec![
                ("0".into(), Child::String("foo".to_string().into())),
                ("1".into(), Child::ComponentID(1)),
            ],
            statics: Some(Statics::Statics(vec!["1".into(), "2".into(), "3".into()])),
            is_root: None,
            new_render: None,
        },
        components: vec![(
            "1".into(),
            Component {
                children: vec![("0".into(), Child::String("bar".to_string().into()))],
                statics: ComponentStatics::Statics(vec!["4".into(), "5".into()]),
                is_root: None,
            },
        )],
    };
    let expected = "1foo24bar53";
    let out: String = root.render().expect("Failed to render root");
    assert_eq!(out, expected);
}

#[test]
fn simple_diff_render() {
    let simple_diff1 = r#"{
  "0": "cooling",
  "1": "cooling",
  "2": "07:15:03 PM",
  "s": [
    "<div class=\"thermostat\">\n  <div class=\"bar ",
    "\">\n    <a href=\"\\#\" phx-click=\"toggle-mode\">",
    "</a>\n    <span>",
    "</span>\n  </div>\n</div>\n"
  ]
}"#;
    let expected = r#"<div class="thermostat">
  <div class="bar cooling">
    <a href="\#" phx-click="toggle-mode">cooling</a>
    <span>07:15:03 PM</span>
  </div>
</div>
"#;
    let root: RootDiff = parse_root_diff(simple_diff1);
    let root: Root = to_root(root);
    let out: String = root.render().expect("Failed to convert Root into string");
    assert_eq!(out, expected);
}

#[test]
fn simple_diff_merge_and_render() {
    let simple_diff1 = r#"{
  "0": "cooling",
  "1": "cooling",
  "2": "07:15:03 PM",
  "s": [
    "<div class=\"thermostat\">\n  <div class=\"bar ",
    "\">\n    <a href=\"\\#\" phx-click=\"toggle-mode\">",
    "</a>\n    <span>",
    "</span>\n  </div>\n</div>\n"
  ]
}"#;
    let root: RootDiff = parse_root_diff(simple_diff1);
    let root: Root = to_root(root);
    let simple_diff2 = r#"{"2": "07:15:04 PM"}"#;
    let root_diff: RootDiff = parse_root_diff(simple_diff2);
    let root = root
        .merge(root_diff)
        .expect("Failed to merge diff into root");
    let out: String = root.render().expect("Failed to convert Root into string");
    let expected = r#"<div class="thermostat">
  <div class="bar cooling">
    <a href="\#" phx-click="toggle-mode">cooling</a>
    <span>07:15:04 PM</span>
  </div>
</div>
"#;
    assert_eq!(out, expected);
}

#[test]
fn json_to_fragment_to_string() {
    let fragment_json = r#"
{
  "0": {
    "d": [
          ["foo", {"d": [["0", 1], ["1", 2]], "s": 0}],
          ["bar", {"d": [["0", 3], ["1", 4]], "s": 0}]
    ],
    "s": ["\n  <p>\n    ", "\n    ", "\n  </p>\n"],
    "p": {"0": ["<span>", ": ", "</span>"]}
  },
  "c": {
    "1": {"0": "index_1", "1": "world", "s": ["<b>FROM ", " ", "</b>"]},
    "2": {"0": "index_2", "1": "world", "s": 1},
    "3": {"0": "index_1", "1": "world", "s": 1},
    "4": {"0": "index_2", "1": "world", "s": 3}
  },
  "s": ["<div>", "</div>"]
}
"#;
    let root: RootDiff = parse_root_diff(fragment_json);
    let root: Root = to_root(root);
    let out: String = root.render().expect("Failed to convert Root into string");

    let expected = r#"<div>
  <p>
    foo
    <span>0: <b>FROM index_1 world</b></span><span>1: <b>FROM index_2 world</b></span>
  </p>

  <p>
    bar
    <span>0: <b>FROM index_1 world</b></span><span>1: <b>FROM index_2 world</b></span>
  </p>
</div>"#;
    assert_eq!(out, expected);
}

#[test]
fn fragment_with_components_with_static_component_refs() {
    let input_json = r#"
        {
            "0": {
                "0": {
                    "d": [
                        [
                            1
                        ],
                        [
                            2
                        ],
                        [
                            3
                        ]
                    ],
                    "s": [
                        "\n  ",
                        "\n"
                    ]
                },
                "s": [
                    "",
                    ""
                ]
            },
            "c": {
                "1": {
                    "0": {
                        "d": [
                            [
                                "3"
                            ],
                            [
                                "4"
                            ],
                            [
                                "5"
                            ]
                        ],
                        "s": [
                            "\n    <Text>Item ",
                            "</Text>\n"
                        ]
                    },
                    "s": [
                        "<Group>\n",
                        "\n  </Group>"
                    ]
                },
                "2": {
                    "0": {
                        "d": [
                            [
                                "6"
                            ],
                            [
                                "7"
                            ],
                            [
                                "8"
                            ]
                        ]
                    },
                    "s": 1
                },
                "3": {
                    "0": {
                        "d": [
                            [
                                "9"
                            ],
                            [
                                "10"
                            ],
                            [
                                "11"
                            ]
                        ]
                    },
                    "s": 1
                }
            },
            "s": [
                "<div>",
                "</div>"
            ]
        }"#;
    let root: RootDiff = parse_root_diff(input_json);
    let root: Root = to_root(root);
    let out: String = root.render().expect("Failed to convert Root into string");
    let expected = r#"<div>
  <Group>

    <Text>Item 3</Text>

    <Text>Item 4</Text>

    <Text>Item 5</Text>

  </Group>

  <Group>

    <Text>Item 6</Text>

    <Text>Item 7</Text>

    <Text>Item 8</Text>

  </Group>

  <Group>

    <Text>Item 9</Text>

    <Text>Item 10</Text>

    <Text>Item 11</Text>

  </Group>
</div>"#;
    assert_eq!(out, expected);
}

#[test]
fn fragment_with_dynamic_component() {
    let input_json = r#"
        {
            "0": {
                "0": {
                    "d": [
                        [
                            1
                        ]
                    ],
                    "s": [
                        "\n  ",
                        "\n"
                    ]
                },
                "s": [
                    "",
                    ""
                ]
            },
            "c": {
                "1": {
                    "0": {
                        "d": [
                            [
                                "3"
                            ],
                            [
                                "4"
                            ],
                            [
                                "5"
                            ]
                        ],
                        "s": [
                            "\n    <Text>Item ",
                            "</Text>\n"
                        ]
                    },
                    "s": [
                        "<Group>\n",
                        "\n  </Group>"
                    ]
                }
            },
            "s": [
                "<div>",
                "</div>"
            ]
        }"#;
    let root: RootDiff = parse_root_diff(input_json);
    let root: Root = to_root(root);
    let out: String = root.render().expect("Failed to convert Root into string");
    let expected = r#"<div>
  <Group>

    <Text>Item 3</Text>

    <Text>Item 4</Text>

    <Text>Item 5</Text>

  </Group>
</div>"#;
    assert_eq!(out, expected);
}

#[test]
fn deep_diff_merging() {
    let deep_diff1 = r#"{
  "0": {
    "0": {
      "d": [["user1058", "1"], ["user99", "1"]],
      "s": ["        <tr>\n          <td>", " (", ")</td>\n        </tr>\n"]
    },
    "s": [
      "  <table>\n    <thead>\n      <tr>\n        <th>Username</th>\n        <th></th>\n      </tr>\n    </thead>\n    <tbody>\n",
      "    </tbody>\n  </table>\n"
    ]
  },
  "1": {
    "d": [
      [
        "asdf_asdf",
        "asdf@asdf.com",
        "123-456-7890",
        "<a href=\"/users/1\">Show</a>",
        "<a href=\"/users/1/edit\">Edit</a>",
        "<a href=\"\\#\" phx-click=\"delete_user\" phx-value=\"1\">Delete</a>"
      ]
    ],
    "s": [
      "    <tr>\n      <td>",
      "</td>\n      <td>",
      "</td>\n      <td>",
      "</td>\n\n      <td>\n",
      "        ",
      "\n",
      "      </td>\n    </tr>\n"
    ]
  }
}"#;
    let root: RootDiff = parse_root_diff(deep_diff1);
    let root: Root = to_root(root);

    let deep_diff2 = r#"{
  "0": {
    "0": {
      "d": [["user1058", "2"]]
    }
  }
}"#;
    let root_diff: RootDiff = parse_root_diff(deep_diff2);
    let root = root.merge(root_diff).expect("Failed to merge root");
    let deep_diff_result = r#" {
  "0": {
    "0": {
      "d": [["user1058", "2"]],
      "s": ["        <tr>\n          <td>", " (", ")</td>\n        </tr>\n"]
    },
    "s": [
      "  <table>\n    <thead>\n      <tr>\n        <th>Username</th>\n        <th></th>\n      </tr>\n    </thead>\n    <tbody>\n",
      "    </tbody>\n  </table>\n"
    ]
  },
  "1": {
    "d": [
      [
        "asdf_asdf",
        "asdf@asdf.com",
        "123-456-7890",
        "<a href=\"/users/1\">Show</a>",
        "<a href=\"/users/1/edit\">Edit</a>",
        "<a href=\"\\#\" phx-click=\"delete_user\" phx-value=\"1\">Delete</a>"
      ]
    ],
    "s": [
      "    <tr>\n      <td>",
      "</td>\n      <td>",
      "</td>\n      <td>",
      "</td>\n\n      <td>\n",
      "        ",
      "\n",
      "      </td>\n    </tr>\n"
    ]
  }
}"#;
    let expected_root: RootDiff = parse_root_diff(deep_diff_result);
    let expected_root: Root = to_root(expected_root);
    assert_eq!(canon_root(&root), canon_root(&expected_root));
}

#[test]
fn regular_fragment_renders_statics_around_its_children() {
    let fragment = Fragment::Regular {
        statics: Some(Statics::Statics(vec!["<a>".to_string(), "</a>".to_string(), "!".to_string()])),
        is_root: None,
        children: vec![("0".to_string(), Child::String(OneOrManyStrings::One("x".to_string())))],
        new_render: None,
    };
    // The child at index 1 is missing and is skipped.
    assert_eq!(fragment.render(&Vec::new(), None, None), Ok("<a>x</a>!".to_string()));
    let bare = Fragment::Regular { statics: None, is_root: None, children: Vec::new(), new_render: None };
    assert_eq!(bare.render(&Vec::new(), None, None), Ok(String::new()));
    let text = Fragment::Regular {
        statics: Some(Statics::String("ignored".to_string())),
        is_root: None,
        children: vec![("0".to_string(), Child::String(OneOrManyStrings::One("x".to_string())))],
        new_render: None,
    };
    assert_eq!(text.render(&Vec::new(), None, None), Ok(String::new()));
}

#[test]
fn render_within_stops_at_the_depth_bound() {
    let leaf = Child::String(OneOrManyStrings::One("x".to_string()));
    let inner = Fragment::Regular {
        statics: Some(Statics::Statics(vec!["<b>".to_string(), "</b>".to_string()])),
        is_root: None,
        children: vec![("0".to_string(), leaf)],
        new_render: None,
    };
    let outer = Fragment::Regular {
        statics: Some(Statics::Statics(vec!["<a>".to_string(), "</a>".to_string()])),
        is_root: None,
        children: vec![("0".to_string(), Child::Fragment(inner))],
        new_render: None,
    };
    let root = Root { new_render: None, fragment: outer, components: Vec::new() };
    assert_eq!(root.render_within(0), None);
    assert_eq!(root.render_within(1), None);
    assert_eq!(root.render_within(10), Some(Ok("<a><b>x</b></a>".to_string())));
    assert_eq!(root.render(), Ok("<a><b>x</b></a>".to_string()));
}
