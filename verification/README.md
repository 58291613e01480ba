# godot_bevy

A verified core for a bridge between the Godot engine and the Bevy ECS.

`src/` is the library, written and proved with Verus:

- `node_tree_view`: wildcard matching, splitting of node path patterns, and the pattern search
  over a snapshot of the scene (`NodeTree`), with its soundness and completeness laws.
- `scene_tree`: scene tree events, node groups, and the bookkeeping (`SceneTreeMirror`) that
  decides which entity mirrors each node and what happens to it when the node is added, renamed
  or removed.
- `collisions`: collision state of bodies and areas, updated from their signals.
- `signals`, `input`: signal arguments and events, mouse buttons, and input event kinds.
- `transforms`: sync settings, and which changed transforms are written back to Godot.
- `audio`: tweens, the sound queue and the playing sounds of the audio manager.
- `logging`: the layout of log lines in the Godot console.
- `text`: character-level string helpers.

`app/` is the Godot and Bevy glue around it: plugins and systems, engine classes, the
floating-point transform and audio math, and the calls into the engine. It hands the library
plain values (instance ids, entity bits, names, flags) and acts on what the library decides.

`tests/` runs the library on concrete values.
